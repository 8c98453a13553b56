use std::path::PathBuf;

use patchwork::ast::{Block, Expr, Item, Param, Program, PromptBlock, PromptItem, Statement, WorkerDecl};
use patchwork::codegen::{decimal_string, escape_string, escape_template_literal, CodeGenerator};
use patchwork::driver::{generate_skill_document, needs_module_resolution, CompileOptions, Compiler};
use patchwork::error::CompileError;
use patchwork::module::{
    extract_exports, path_to_module_id, Location, ModuleResolver, ResolveAction, ResolvePhase,
};
use patchwork::parser::parse;
use patchwork::prompts::{extract_prompt_template, PromptKind};

#[test]
fn test_escape_string() {
    assert_eq!(escape_string("hello"), "hello");
    assert_eq!(escape_string("hello\nworld"), "hello\\nworld");
    assert_eq!(escape_string("say \"hi\""), "say \\\"hi\\\"");
}

#[test]
fn test_escape_template_literal() {
    assert_eq!(escape_template_literal("hello"), "hello");
    assert_eq!(escape_template_literal("use `backticks`"), "use \\`backticks\\`");
    assert_eq!(escape_template_literal("embed ${x}"), "embed \\${x}");
}

#[test]
fn test_compile_options_builder() {
    let opts = CompileOptions::new("test.pw")
        .output_dir("./output")
        .verbose(true);

    assert_eq!(PathBuf::from(&opts.input), PathBuf::from("test.pw"));
    assert_eq!(opts.output_dir.as_ref().map(PathBuf::from), Some(PathBuf::from("./output")));
    assert!(opts.verbose);
}

#[test]
fn test_path_to_module_id() {
    let resolver = ModuleResolver::new("/project");
    // Note: This test would need actual file system setup to work properly
    // For now, just testing the structure
    assert_eq!(resolver.modules().len(), 0);
}

#[test]
fn escape_string_handles_backslash_tab_and_return() {
    assert_eq!(escape_string("a\\b\tc\rd"), "a\\\\b\\tc\\rd");
}

#[test]
fn escape_template_only_escapes_dollar_before_brace() {
    assert_eq!(escape_template_literal("$5 and $${y}"), "$5 and $\\${y}");
    assert_eq!(escape_template_literal("a\\b"), "a\\\\b");
}

#[test]
fn decimal_string_formats_numbers() {
    assert_eq!(decimal_string(0), "0");
    assert_eq!(decimal_string(7), "7");
    assert_eq!(decimal_string(120), "120");
}

#[test]
fn error_messages() {
    assert_eq!(CompileError::parse("a.pw", "bad").message(), "Parse error in a.pw: bad");
    assert_eq!(CompileError::semantic("a.pw", "odd").message(), "Semantic error in a.pw: odd");
    assert_eq!(CompileError::codegen("no").message(), "Code generation error: no");
    let multi = CompileError::Multiple(vec![
        CompileError::Codegen("x".to_string()),
        CompileError::Unsupported("y".to_string()),
    ]);
    assert_eq!(
        multi.message(),
        "Multiple errors occurred:\n  - Code generation error: x\n  - Unsupported feature: y"
    );
    assert_eq!(
        CompileError::ModuleNotFound { module: "m".to_string(), from: "f.pw".to_string() }.message(),
        "Module not found: 'm' imported from f.pw"
    );
}

#[test]
fn generator_output_for_worker() {
    let program = parse("worker w(a) {\n return a\n}").unwrap();
    let mut g = CodeGenerator::new();
    let js = g.generate(&program).unwrap();
    assert_eq!(
        js,
        "// Patchwork runtime imports\nimport { shell, SessionContext, executePrompt, delegate } from './patchwork-runtime.js';\n\nexport function w(session, a) {\n  return a;\n}\n\n"
    );
}

#[test]
fn generator_imports_come_first() {
    let program = parse("import std.log\nimport ./{a, b}\nfun f() {\n}").unwrap();
    let mut g = CodeGenerator::new();
    let js = g.generate(&program).unwrap();
    assert!(js.starts_with(
        "import { log } from 'patchwork-runtime';\nimport * as a from './a.js';\nimport * as b from './b.js';\n\n// Patchwork runtime imports\n"
    ));
    assert!(js.contains("function f() {\n}\n"));
}

#[test]
fn generator_prompt_outside_worker_is_error() {
    let program = parse("fun f() {\n var x = think { hi }\n}").unwrap();
    let mut g = CodeGenerator::new();
    let err = g.generate(&program).unwrap_err();
    assert_eq!(
        err.message(),
        "Unsupported feature: Prompt blocks (think/ask) must be used inside a worker"
    );
}

#[test]
fn generator_numbers_prompts_in_order() {
    let program =
        parse("worker w(name) {\n var x = think { Hi ${name} }\n var y = ask { Ok? }\n}").unwrap();
    let mut g = CodeGenerator::new();
    let js = g.generate(&program).unwrap();
    assert!(js.contains("await executePrompt(session, 'think_0', { name })"));
    assert!(js.contains("await executePrompt(session, 'ask_1', {  })"));
    assert_eq!(g.prompts().len(), 2);
    assert_eq!(g.prompts()[1].id, "ask_1");
}

#[test]
fn generator_range_operator_is_unsupported() {
    let program = parse("fun f() {\n var r = 1..3\n}");
    if let Ok(program) = program {
        let mut g = CodeGenerator::new();
        let res = g.generate(&program);
        assert!(res.is_err());
    }
}

#[test]
fn skill_document_lists_sorted_bindings() {
    let block = PromptBlock {
        items: vec![
            PromptItem::Text("Use "),
            PromptItem::Interpolation(Expr::Identifier("zeta")),
            PromptItem::Text(" and "),
            PromptItem::Interpolation(Expr::Identifier("alpha")),
        ],
    };
    let t = extract_prompt_template(&block, PromptKind::Ask, "ask_0".into(), "wk".into()).unwrap();
    let doc = generate_skill_document("main_wk_ask_0", &t);
    assert_eq!(
        doc,
        "---\nname: main_wk_ask_0\ndescription: Ask block from worker wk\nallowed-tools: All\n---\n\n# wk - Ask Block\n\n## Input Variables\n\nThe following variables are available:\n\n- `alpha`: ${BINDING_alpha}\n- `zeta`: ${BINDING_zeta}\n\n## Task\n\nUse ${zeta} and ${alpha}\n\n## Output\n\nInteract with the user and return their response.\n"
    );
}

#[test]
fn compile_single_file_gives_templates_by_id() {
    let compiler = Compiler::new(CompileOptions::new("prog.pw"));
    let out = compiler
        .compile_single_file("worker w() {\n var x = think { Go }\n}".to_string())
        .unwrap();
    assert_eq!(out.source_file, "prog.pw");
    assert_eq!(out.prompts.len(), 1);
    assert_eq!(out.prompts[0].0, "think_0");
    assert!(out.prompts[0].1.contains("Go"));
    assert!(out.modules.is_empty());
}

#[test]
fn compile_single_file_reports_errors() {
    let compiler = Compiler::new(CompileOptions::new("prog.pw"));
    let err = compiler.compile_single_file("worker w() {\n print(y)\n}".to_string()).unwrap_err();
    assert_eq!(err.message(), "Type error: Undefined variable 'y'");
    let err = compiler.compile_single_file("worker w( {".to_string()).unwrap_err();
    match err {
        CompileError::Parse { file, .. } => assert_eq!(file, "prog.pw"),
        other => panic!("expected a parse error, got {:?}", other),
    }
}

#[test]
fn module_resolution_is_needed_for_imports() {
    assert!(needs_module_resolution("import ./a\nworker w() {}"));
    assert!(!needs_module_resolution("worker w() {}"));
}

#[test]
fn exports_of_program() {
    let program = parse("export default worker main() {\n}\nexport fun helper() {\n}\nfun hidden() {\n}").unwrap();
    let ex = extract_exports(&program);
    assert_eq!(ex.default.as_deref(), Some("main"));
    assert_eq!(ex.named, vec!["helper".to_string()]);
}

#[test]
fn module_ids_are_relative_to_root() {
    assert_eq!(path_to_module_id("/p/lib/a.pw", "/p", "./lib/a.pw").unwrap(), "lib/a");
    let err = path_to_module_id("/q/a.pw", "/p", "../q/a.pw").unwrap_err();
    assert_eq!(
        err.message(),
        "Module resolution error for ../q/a.pw: Path is not relative to root /p"
    );
}

#[test]
fn resolver_walks_imports_depth_first() {
    let mut r = ModuleResolver::new("/p");
    let a = r.start("/p/main.pw", Ok("/p/main.pw".to_string()), Ok("/p".to_string())).unwrap();
    assert!(matches!(a, ResolveAction::Read(ref p) if p == "/p/main.pw"));
    let a = r.source_loaded(Ok("import ./util\nworker main() {\n}".to_string())).unwrap();
    let paths = match a {
        ResolveAction::Locate(ps) => ps,
        other => panic!("expected Locate, got {:?}", other),
    };
    assert_eq!(paths.len(), 1);
    assert_eq!(r.pending_count(), 1);
    let a = r.located(vec![Location::Found("/p/util.pw".to_string())]).unwrap();
    assert!(matches!(a, ResolveAction::Read(_)));
    let a = r.source_loaded(Ok("export fun f() {\n}".to_string())).unwrap();
    assert!(matches!(a, ResolveAction::Locate(ref ps) if ps.is_empty()));
    let a = r.located(vec![]).unwrap();
    assert!(matches!(a, ResolveAction::Done));
    assert_eq!(r.phase(), ResolvePhase::Idle);
    let order = r.compilation_order();
    assert_eq!(order.len(), 2);
    assert_eq!(order[0].id, "util");
    assert_eq!(order[1].id, "main");
    assert_eq!(order[1].dependencies, vec!["util".to_string()]);
    assert!(r.get_module("util").is_some());
    assert_eq!(r.get_exports("util").unwrap().named, vec!["f".to_string()]);
    assert!(r.get_module("nope").is_none());

    let compiler = Compiler::new(CompileOptions::new("/p/main.pw"));
    let out = compiler.compile_modules(&r).unwrap();
    assert_eq!(out.modules.len(), 2);
    assert_eq!(out.modules[0].0, "util.js");
    assert_eq!(out.modules[1].0, "main.js");
    assert!(out.javascript.contains("export function main(session)"));
}

#[test]
fn resolver_detects_cycles_and_missing_files() {
    let mut r = ModuleResolver::new("/p");
    r.start("/p/a.pw", Ok("/p/a.pw".to_string()), Ok("/p".to_string())).unwrap();
    r.source_loaded(Ok("import ./b".to_string())).unwrap();
    r.located(vec![Location::Found("/p/b.pw".to_string())]).unwrap();
    r.source_loaded(Ok("import ./a".to_string())).unwrap();
    let err = r.located(vec![Location::Found("/p/a.pw".to_string())]).unwrap_err();
    assert_eq!(err.message(), "Circular dependency detected: a");

    let mut r = ModuleResolver::new("/p");
    r.start("/p/a.pw", Ok("/p/a.pw".to_string()), Ok("/p".to_string())).unwrap();
    r.source_loaded(Ok("import ./{x}".to_string())).unwrap();
    let err = r.located(vec![Location::Missing]).unwrap_err();
    assert_eq!(err.message(), "Module not found: 'x' imported from /p/a.pw");
}

#[test]
fn typechecked_program_from_ast() {
    let program = Program {
        items: vec![Item::Worker(WorkerDecl {
            name: "w",
            params: vec![Param { name: "a", type_ann: None }],
            body: Block { statements: vec![Statement::Return(Some(Expr::Identifier("a")))] },
            is_exported: true,
            is_default: false,
        })],
    };
    let compiler = Compiler::new(CompileOptions::new("x.pw"));
    let out = compiler.compile_program(String::new(), &program).unwrap();
    assert!(out.javascript.contains("export function w(session, a) {\n  return a;\n}\n"));
}

#[test]
fn prompt_templates_have_distinct_ids() {
    let compiler = Compiler::new(CompileOptions::new("prog.pw"));
    let source = "worker w() {\n var x = think { Go }\n var y = ask { Stop }\n}\nworker v() {\n var z = think { More }\n}";
    let out = compiler.compile_single_file(source.to_string()).unwrap();
    let ids: Vec<&str> = out.prompts.iter().map(|p| p.0.as_str()).collect();
    assert_eq!(ids, vec!["think_0", "ask_1", "think_2"]);
    assert!(out.javascript.contains("await executePrompt(session, 'think_2', {  })"));
}

#[test]
fn blank_source_compiles() {
    let compiler = Compiler::new(CompileOptions::new("prog.pw"));
    let out = compiler.compile_single_file("\n# nothing\n".to_string()).unwrap();
    assert!(out.prompts.is_empty());
    assert!(out.javascript.contains("// Patchwork runtime imports"));
}

#[test]
fn generator_reused_gives_fresh_results() {
    let p1 = parse("fun f(a) {\n return a\n}").unwrap();
    let p2 = parse("worker w() {\n var x = 1 + 2\n}").unwrap();
    let mut g = CodeGenerator::new();
    g.generate(&p1).unwrap();
    let again = g.generate(&p2).unwrap();
    let fresh = CodeGenerator::new().generate(&p2).unwrap();
    assert_eq!(again, fresh);
}
