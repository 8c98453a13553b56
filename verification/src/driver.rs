//! The compilation pipeline: parse, check, generate, and gather the prompt
//! templates (by id for a single file; as skill documents by path for the
//! modules of a multi-file program).
use vstd::prelude::*;
use crate::ast::Program;
use crate::codegen::{
    decimal, gen_program, is_gen_error, law_template_ids_distinct, lemma_decimal_injective,
    lemma_decimal_no_underscore, template_id, template_view, CodeGenerator, GenState, TemplateView,
};
use crate::error::CompileError;
use crate::parser::{parse, parses_to};
use crate::prompts::{names_of, PromptKind, PromptTemplate};
use crate::strutil::str_chars;
use crate::typecheck::{chk_program, global_env, TypeChecker};

verus! {

/// Options for compilation.
#[derive(Debug, Clone)]
pub struct CompileOptions {
    /// The source file to compile.
    pub input: String,
    /// Where to write the output (`./out` when not given).
    pub output_dir: Option<String>,
    /// Whether to report progress.
    pub verbose: bool,
}

impl CompileOptions {
    /// Options to compile `input`, with the default output directory, quietly.
    pub fn new(input: &str) -> (r: CompileOptions)
        ensures
            r.input@ == input@,
            r.output_dir is None,
            !r.verbose,
    {
        CompileOptions { input: input.to_owned(), output_dir: None, verbose: false }
    }

    /// The same options, writing to `dir`.
    pub fn output_dir(self, dir: &str) -> (r: CompileOptions)
        ensures
            r.input == self.input,
            r.output_dir matches Some(d) && d@ == dir@,
            r.verbose == self.verbose,
    {
        CompileOptions { input: self.input, output_dir: Some(dir.to_owned()), verbose: self.verbose }
    }

    /// The same options, reporting progress or not.
    pub fn verbose(self, verbose: bool) -> (r: CompileOptions)
        ensures
            r.input == self.input,
            r.output_dir == self.output_dir,
            r.verbose == verbose,
    {
        CompileOptions { input: self.input, output_dir: self.output_dir, verbose }
    }
}

/// What compilation produces.
#[derive(Debug)]
pub struct CompileOutput {
    /// The source file compiled (the entry point).
    pub source_file: String,
    /// The source text (single-file compilation only).
    pub source: String,
    /// The code of the program (of the entry module in multi-file mode).
    pub javascript: String,
    /// The code of every module, by file name (multi-file mode).
    pub modules: Vec<(String, String)>,
    /// The prompt blocks: in single-file mode each template's markdown by
    /// its id; in multi-file mode the skill documents by path.
    pub prompts: Vec<(String, String)>,
}

/// The values of a list of pairs of strings.
pub open spec fn pairs_view(v: Seq<(String, String)>) -> Seq<(Seq<char>, Seq<char>)> {
    v.map_values(|p: (String, String)| (p.0@, p.1@))
}

/// Whether `a` comes before `b` in lexicographic order.
pub open spec fn lex_lt(a: Seq<char>, b: Seq<char>) -> bool
    decreases a.len(),
{
    if a.len() == 0 {
        b.len() > 0
    } else if b.len() == 0 {
        false
    } else if a[0] != b[0] {
        a[0] < b[0]
    } else {
        lex_lt(a.drop_first(), b.drop_first())
    }
}

/// A sorted list with `x` inserted before the first larger element from
/// the end.
pub open spec fn insert_sorted(s: Seq<Seq<char>>, x: Seq<char>) -> Seq<Seq<char>>
    decreases s.len(),
{
    if s.len() == 0 {
        seq![x]
    } else if !lex_lt(x, s.last()) {
        s.push(x)
    } else {
        insert_sorted(s.drop_last(), x).push(s.last())
    }
}

/// The names in lexicographic order.
pub open spec fn sort_names(s: Seq<Seq<char>>) -> Seq<Seq<char>>
    decreases s.len(),
{
    if s.len() == 0 {
        Seq::empty()
    } else {
        insert_sorted(sort_names(s.drop_last()), s.last())
    }
}

/// The word for a kind of prompt in a skill document.
pub open spec fn kind_label(k: PromptKind) -> Seq<char> {
    match k {
        PromptKind::Think => "Think"@,
        PromptKind::Ask => "Ask"@,
    }
}

/// One line per binding: its name and its placeholder.
pub open spec fn binding_lines(ns: Seq<Seq<char>>) -> Seq<char>
    decreases ns.len(),
{
    if ns.len() == 0 {
        Seq::empty()
    } else {
        binding_lines(ns.drop_last()) + "- `"@ + ns.last() + "`: ${BINDING_"@ + ns.last() + "}\n"@
    }
}

/// The skill document of a prompt block: front matter, a title, the input
/// variables in lexicographic order (if any), the task, and what to return.
pub open spec fn skill_doc(skill_name: Seq<char>, t: TemplateView) -> Seq<char> {
    "---\n"@ + "name: "@ + skill_name + "\n"@ + "description: "@ + kind_label(t.kind)
        + " block from worker "@ + t.worker_name + "\n"@ + "allowed-tools: All\n"@ + "---\n\n"@
        + "# "@ + t.worker_name + " - "@ + kind_label(t.kind) + " Block\n\n"@ + (if t.bindings.len()
        > 0 {
        "## Input Variables\n\n"@ + "The following variables are available:\n\n"@ + binding_lines(
            sort_names(t.bindings),
        ) + "\n"@
    } else {
        Seq::empty()
    }) + "## Task\n\n"@ + t.markdown + "\n\n"@ + "## Output\n\n"@ + match t.kind {
        PromptKind::Think => "Return your analysis result as structured data.\n"@,
        PromptKind::Ask => "Interact with the user and return their response.\n"@,
    }
}

/// The skill name of a template compiled in the module with the given prefix.
pub open spec fn skill_name(prefix: Seq<char>, t: TemplateView) -> Seq<char> {
    prefix + "_"@ + t.worker_name + "_"@ + t.id
}

/// The skill documents of templates, by path `skills/<name>/SKILL.md`.
pub open spec fn skill_files(prefix: Seq<char>, ts: Seq<TemplateView>) -> Seq<(Seq<char>, Seq<char>)>
    decreases ts.len(),
{
    if ts.len() == 0 {
        Seq::empty()
    } else {
        skill_files(prefix, ts.drop_last()).push(
            (
                "skills/"@ + skill_name(prefix, ts.last()) + "/SKILL.md"@,
                skill_doc(skill_name(prefix, ts.last()), ts.last()),
            ),
        )
    }
}

/// The state a new code generator starts from.
pub open spec fn fresh_state() -> GenState {
    GenState { out: Seq::empty(), prompts: Seq::empty(), worker: None }
}

/// Whether `a` comes before `b` in lexicographic order.
fn lex_less(a: &Vec<char>, b: &Vec<char>) -> (r: bool)
    ensures
        r == lex_lt(a@, b@),
{
    let mut i: usize = 0;
    proof {
        assert(a@.skip(0) =~= a@);
        assert(b@.skip(0) =~= b@);
    }
    while i < a.len() && i < b.len()
        invariant
            i <= a.len(),
            i <= b.len(),
            forall|j: int| 0 <= j < i ==> a@[j] == b@[j],
            lex_lt(a@, b@) == lex_lt(a@.skip(i as int), b@.skip(i as int)),
        decreases a.len() - i,
    {
        proof {
            assert(a@.skip(i as int).drop_first() =~= a@.skip(i + 1));
            assert(b@.skip(i as int).drop_first() =~= b@.skip(i + 1));
        }
        if a[i] != b[i] {
            return a[i] < b[i];
        }
        i = i + 1;
    }
    i < b.len()
}

/// Inserts `x` into a sorted list of names.
fn insert_name(v: &mut Vec<String>, x: String)
    ensures
        names_of(final(v)@) == insert_sorted(names_of(old(v)@), x@),
    decreases old(v)@.len(),
{
    let ghost old_v = v@;
    if v.len() == 0 {
        v.push(x);
        proof {
            assert(names_of(v@) =~= seq![x@]);
        }
        return;
    }
    let last = v.pop().unwrap();
    proof {
        assert(v@ =~= old_v.drop_last());
        assert(names_of(old_v).last() == last@);
        assert(names_of(old_v).drop_last() =~= names_of(v@));
    }
    let xc = str_chars(x.as_str());
    let lc = str_chars(last.as_str());
    if !lex_less(&xc, &lc) {
        v.push(last);
        v.push(x);
        proof {
            assert(names_of(v@) =~= names_of(old_v).push(x@));
        }
    } else {
        let ghost mid = v@;
        insert_name(v, x);
        let ghost inserted = v@;
        v.push(last);
        proof {
            assert(names_of(v@) =~= names_of(inserted).push(last@));
        }
    }
}

/// The names in lexicographic order.
fn sorted_names(ns: &Vec<String>) -> (r: Vec<String>)
    ensures
        names_of(r@) == sort_names(names_of(ns@)),
{
    let mut out: Vec<String> = Vec::new();
    let mut i: usize = 0;
    proof {
        assert(names_of(out@) =~= sort_names(names_of(ns@).take(0)));
    }
    while i < ns.len()
        invariant
            i <= ns.len(),
            names_of(out@) == sort_names(names_of(ns@).take(i as int)),
        decreases ns.len() - i,
    {
        proof {
            assert(names_of(ns@).take(i + 1).drop_last() =~= names_of(ns@).take(i as int));
            assert(names_of(ns@).take(i + 1).last() == ns@[i as int]@);
        }
        insert_name(&mut out, ns[i].clone());
        i = i + 1;
    }
    proof {
        assert(names_of(ns@).take(ns.len() as int) =~= names_of(ns@));
    }
    out
}

/// Writes the skill document of a prompt block.
pub fn generate_skill_document(skill_name: &str, prompt: &PromptTemplate) -> (r: String)
    ensures
        r@ == skill_doc(skill_name@, template_view(*prompt)),
{
    let label = match prompt.kind {
        PromptKind::Think => "Think",
        PromptKind::Ask => "Ask",
    };
    let mut doc = String::new();
    doc.append("---\n");
    doc.append("name: ");
    doc.append(skill_name);
    doc.append("\n");
    doc.append("description: ");
    doc.append(label);
    doc.append(" block from worker ");
    doc.append(prompt.worker_name.as_str());
    doc.append("\n");
    doc.append("allowed-tools: All\n");
    doc.append("---\n\n");
    doc.append("# ");
    doc.append(prompt.worker_name.as_str());
    doc.append(" - ");
    doc.append(label);
    doc.append(" Block\n\n");
    let ghost head = doc@;
    let mut vars = String::new();
    if !prompt.required_bindings.is_empty() {
        vars.append("## Input Variables\n\n");
        vars.append("The following variables are available:\n\n");
        let names = prompt.required_bindings.names();
        let sorted = sorted_names(names);
        let ghost sn = names_of(sorted@);
        let ghost pre = vars@;
        let mut i: usize = 0;
        while i < sorted.len()
            invariant
                i <= sorted.len(),
                sn == names_of(sorted@),
                vars@ == pre + binding_lines(sn.take(i as int)),
            decreases sorted.len() - i,
        {
            proof {
                assert(sn.take(i + 1).drop_last() =~= sn.take(i as int));
                assert(sn.take(i + 1).last() == sorted@[i as int]@);
            }
            let ghost v0 = vars@;
            vars.append("- `");
            vars.append(sorted[i].as_str());
            vars.append("`: ${BINDING_");
            vars.append(sorted[i].as_str());
            vars.append("}\n");
            proof {
                let b = sorted@[i as int]@;
                assert(vars@ =~= v0 + ("- `"@ + b + "`: ${BINDING_"@ + b + "}\n"@));
                assert(binding_lines(sn.take(i + 1)) =~= binding_lines(sn.take(i as int)) + (
                "- `"@ + b + "`: ${BINDING_"@ + b + "}\n"@));
                vstd::seq_lib::lemma_concat_associative(
                    pre,
                    binding_lines(sn.take(i as int)),
                    "- `"@ + b + "`: ${BINDING_"@ + b + "}\n"@,
                );
            }
            i = i + 1;
        }
        proof {
            assert(sn.take(sorted.len() as int) =~= sn);
        }
        vars.append("\n");
    }
    doc.append(vars.as_str());
    doc.append("## Task\n\n");
    doc.append(prompt.markdown.as_str());
    doc.append("\n\n");
    doc.append("## Output\n\n");
    match prompt.kind {
        PromptKind::Think => {
            doc.append("Return your analysis result as structured data.\n");
        },
        PromptKind::Ask => {
            doc.append("Interact with the user and return their response.\n");
        },
    }
    doc
}

/// The prompt templates of a single file, by id: each id with the
/// template's markdown.
pub open spec fn prompt_entries(ts: Seq<TemplateView>) -> Seq<(Seq<char>, Seq<char>)> {
    ts.map_values(|t: TemplateView| (t.id, t.markdown))
}

/// The templates by id, each with its markdown.
fn prompt_texts(templates: &Vec<PromptTemplate>) -> (r: Vec<(String, String)>)
    ensures
        pairs_view(r@) == prompt_entries(crate::codegen::templates_view(templates@)),
{
    let ghost tv = crate::codegen::templates_view(templates@);
    let mut out: Vec<(String, String)> = Vec::new();
    let mut i: usize = 0;
    while i < templates.len()
        invariant
            i <= templates.len(),
            tv == crate::codegen::templates_view(templates@),
            pairs_view(out@) == prompt_entries(tv.take(i as int)),
        decreases templates.len() - i,
    {
        let t = &templates[i];
        let ghost before = out@;
        out.push((t.id.clone(), t.markdown.clone()));
        proof {
            assert(pairs_view(out@) =~= pairs_view(before).push((t.id@, t.markdown@)));
            assert(prompt_entries(tv.take(i + 1)) =~= prompt_entries(tv.take(i as int)).push(
                (t.id@, t.markdown@),
            ));
        }
        i = i + 1;
    }
    proof {
        assert(tv.take(templates.len() as int) =~= tv);
    }
    out
}

/// The skill documents of templates compiled in the module with the
/// given prefix.
fn skill_documents(prefix: &str, templates: &Vec<PromptTemplate>) -> (r: Vec<(String, String)>)
    ensures
        pairs_view(r@) == skill_files(prefix@, crate::codegen::templates_view(templates@)),
{
    let ghost tv = crate::codegen::templates_view(templates@);
    let mut out: Vec<(String, String)> = Vec::new();
    let mut i: usize = 0;
    while i < templates.len()
        invariant
            i <= templates.len(),
            tv == crate::codegen::templates_view(templates@),
            pairs_view(out@) == skill_files(prefix@, tv.take(i as int)),
        decreases templates.len() - i,
    {
        proof {
            assert(tv.take(i + 1).drop_last() =~= tv.take(i as int));
            assert(tv.take(i + 1).last() == template_view(templates@[i as int]));
        }
        let t = &templates[i];
        let mut name = prefix.to_owned();
        name.append("_");
        name.append(t.worker_name.as_str());
        name.append("_");
        name.append(t.id.as_str());
        let doc = generate_skill_document(name.as_str(), t);
        let mut path = "skills/".to_owned();
        path.append(name.as_str());
        path.append("/SKILL.md");
        let ghost before = out@;
        out.push((path, doc));
        proof {
            assert(pairs_view(out@) =~= pairs_view(before).push((out@.last().0@, out@.last().1@)));
        }
        i = i + 1;
    }
    proof {
        assert(tv.take(templates.len() as int) =~= tv);
    }
    out
}

/// Whether a source must be compiled with its imported modules: whether it
/// holds the text `import ` anywhere.
pub fn needs_module_resolution(source: &str) -> (r: bool)
    ensures
        r == (exists|i: int| crate::acp::occurs_at(source@, "import "@, i)),
{
    let cs = str_chars(source);
    let mut pat: Vec<char> = Vec::new();
    pat.push('i');
    pat.push('m');
    pat.push('p');
    pat.push('o');
    pat.push('r');
    pat.push('t');
    pat.push(' ');
    proof {
        reveal_strlit("import ");
        assert(pat@ =~= "import "@);
    }
    let found = crate::acp::find_chars(&cs, &pat, 0);
    proof {
        crate::acp::lemma_find_from(cs@, pat@, 0);
        if found is None {
            crate::acp::lemma_find_from_none(cs@, pat@, 0);
        }
    }
    found.is_some()
}

/// The compiler.
pub struct Compiler {
    options: CompileOptions,
}

/// The outcome of compiling one parsed program, with the module prefix of
/// its skills: the type error, the generation error, or the code and the
/// skill documents.
pub open spec fn compile_spec(p: Program) -> Result<(Seq<char>, Seq<TemplateView>), Result<Seq<char>, crate::codegen::GenError>> {
    match chk_program(global_env(), p) {
        Err(m) => Err(Ok(m)),
        Ok(_) => match gen_program(fresh_state(), p.items@) {
            Err(g) => Err(Err(g)),
            Ok(st) => Ok((st.out, st.prompts)),
        },
    }
}

impl Compiler {
    /// The options of the compiler.
    pub closed spec fn options_spec(self) -> CompileOptions {
        self.options
    }

    /// A compiler with the given options.
    pub fn new(options: CompileOptions) -> (r: Compiler)
        ensures
            r.options_spec() == options,
    {
        Compiler { options }
    }

    /// The options of the compiler.
    pub fn options(&self) -> (r: &CompileOptions)
        ensures
            *r == self.options_spec(),
    {
        &self.options
    }

    /// Compiles a parsed program as a single file: checks it, generates its
    /// code, and gives its prompt templates by id, each with its markdown.
    pub fn compile_program(&self, source: String, program: &Program) -> (r: Result<
        CompileOutput,
        CompileError,
    >)
        ensures
            match compile_spec(*program) {
                Err(Ok(m)) => r matches Err(CompileError::TypeError { message }) && message@ == m,
                Err(Err(g)) => r matches Err(e) && is_gen_error(e, g),
                Ok((code, templates)) => r matches Ok(out) && out.javascript@ == code
                    && out.source == source && out.source_file@ == self.options_spec().input@
                    && out.modules@.len() == 0 && pairs_view(out.prompts@) == prompt_entries(
                    templates,
                ),
            },
    {
        let mut checker = TypeChecker::new();
        match checker.check_program(program) {
            Ok(()) => {},
            Err(e) => {
                return Err(e);
            },
        }
        let mut generator = CodeGenerator::new();
        let javascript = match generator.generate(program) {
            Ok(js) => js,
            Err(e) => {
                return Err(e);
            },
        };
        let templates = generator.prompts();
        let prompts = prompt_texts(templates);
        Ok(
            CompileOutput {
                source_file: self.options.input.clone(),
                source,
                javascript,
                modules: Vec::new(),
                prompts,
            },
        )
    }

    /// Compiles a source text as a single file: parses it and compiles the
    /// program as `compile_program` does. A parse error is reported against
    /// the input file.
    pub fn compile_single_file(&self, source: String) -> (r: Result<CompileOutput, CompileError>)
        ensures
            r matches Err(CompileError::Parse { file, message: _ }) ==> file@
                == self.options_spec().input@,
            r matches Ok(out) ==> exists|p: Program|
                {
                    &&& parses_to(source@, p)
                    &&& compile_spec(p) matches Ok((code, templates))
                    &&& out.javascript@ == code
                    &&& pairs_view(out.prompts@) == prompt_entries(templates)
                    &&& out.source == source
                    &&& out.source_file@ == self.options_spec().input@
                    &&& out.modules@.len() == 0
                },
            r matches Err(CompileError::TypeError { message }) ==> exists|p: Program|
                parses_to(source@, p) && compile_spec(p) == Err::<(Seq<char>, Seq<TemplateView>), _>(
                    Ok::<Seq<char>, crate::codegen::GenError>(message@),
                ),
            crate::token::blank_text(vstd::utf8::encode_utf8(source@)) ==> r is Ok,
            match r {
                Err(CompileError::Parse { .. }) | Err(CompileError::TypeError { .. }) | Ok(_) => true,
                Err(e) => exists|p: Program, g: crate::codegen::GenError|
                    parses_to(source@, p) && compile_spec(p) == Err::<(Seq<char>, Seq<TemplateView>), _>(
                        Err::<Seq<char>, crate::codegen::GenError>(g),
                    ) && is_gen_error(e, g),
            },
    {
        let parsed = {
            let program = parse(source.as_str());
            match program {
                Ok(p) => {
                    let out = self.compile_program(source.clone(), &p);
                    Ok(out)
                },
                Err(e) => Err(e),
            }
        };
        match parsed {
            Ok(out) => out,
            Err(e) => {
                let m = e.message();
                Err(CompileError::parse(self.options.input.as_str(), m.as_str()))
            },
        }
    }
}

/// A module id with `/` made `_`, as skill names use it.
pub open spec fn underscored(s: Seq<char>) -> Seq<char> {
    s.map_values(|c: char|
        if c == '/' {
            '_'
        } else {
            c
        })
}

/// A module id with `/` made `_`.
fn underscore_id(id: &str) -> (r: String)
    ensures
        r@ == underscored(id@),
{
    let cs = str_chars(id);
    let mut out = String::new();
    let mut i: usize = 0;
    while i < cs.len()
        invariant
            i <= cs.len(),
            cs@ == id@,
            out@ == underscored(cs@.take(i as int)),
        decreases cs.len() - i,
    {
        let c = if cs[i] == '/' {
            '_'
        } else {
            cs[i]
        };
        crate::strutil::push_char(&mut out, c);
        proof {
            assert(out@ =~= underscored(cs@.take(i + 1)));
        }
        i = i + 1;
    }
    proof {
        assert(cs@.take(cs.len() as int) =~= cs@);
    }
    out
}

/// The file name of a module's code.
pub open spec fn js_name(id: Seq<char>) -> Seq<char> {
    id + ".js"@
}

/// `code` and `docs` are the compiled code and skill documents of module
/// `m`, whose source parses as `p`.
#[verifier::opaque]
pub open spec fn module_compiles_to(
    m: crate::module::Module,
    p: Program,
    code: Seq<char>,
    docs: Seq<(Seq<char>, Seq<char>)>,
) -> bool {
    &&& parses_to(m.source@, p)
    &&& compile_spec(p) matches Ok((c, templates))
    &&& code == c
    &&& docs == skill_files(underscored(m.id@), templates)
}

/// The skill documents of modules, in order.
pub open spec fn all_docs(docs: Seq<Seq<(Seq<char>, Seq<char>)>>) -> Seq<(Seq<char>, Seq<char>)>
    decreases docs.len(),
{
    if docs.len() == 0 {
        Seq::empty()
    } else {
        all_docs(docs.drop_last()) + docs.last()
    }
}

/// The error of a module whose source parses as `p` but fails to compile.
#[verifier::opaque]
pub open spec fn module_error(m: crate::module::Module, p: Program, e: CompileError) -> bool {
    &&& parses_to(m.source@, p)
    &&& match compile_spec(p) {
        Err(Ok(msg)) => e matches CompileError::TypeError { message } && message@ == msg,
        Err(Err(g)) => is_gen_error(e, g),
        Ok(_) => false,
    }
}

/// Checks and generates the program of a module with id `id`; its skill
/// documents are named after the module.
fn compile_ast(id: &str, program: &Program) -> (r: Result<(String, Vec<(String, String)>), CompileError>)
    ensures
        match compile_spec(*program) {
            Err(Ok(m)) => r matches Err(CompileError::TypeError { message }) && message@ == m,
            Err(Err(g)) => r matches Err(e) && is_gen_error(e, g),
            Ok((code, templates)) => r matches Ok(x) && x.0@ == code && pairs_view(x.1@) == skill_files(
                underscored(id@),
                templates,
            ),
        },
{
    let mut checker = TypeChecker::new();
    match checker.check_program(program) {
        Ok(()) => {},
        Err(e) => {
            return Err(e);
        },
    }
    let mut generator = CodeGenerator::new();
    generator.set_module_id(id);
    let js = match generator.generate(program) {
        Ok(js) => js,
        Err(e) => {
            return Err(e);
        },
    };
    let prefix = underscore_id(id);
    let docs = skill_documents(prefix.as_str(), generator.prompts());
    Ok((js, docs))
}

/// Parses, checks and generates one resolved module; its skill documents
/// are named after the module.
fn compile_module(module: &crate::module::Module) -> (r: Result<(String, Vec<(String, String)>), CompileError>)
    ensures
        r matches Ok(x) ==> exists|p: Program| module_compiles_to(*module, p, x.0@, pairs_view(x.1@)),
        r matches Err(CompileError::Parse { file, message: _ }) ==> file@ == module.path@,
        match r {
            Err(e) => !(e is Parse) ==> exists|p: Program| module_error(*module, p, e),
            Ok(_) => true,
        },
{
    match parse(module.source.as_str()) {
        Err(e) => {
            let m = e.message();
            Err(CompileError::parse(module.path.as_str(), m.as_str()))
        },
        Ok(ast) => {
            let r = compile_ast(module.id.as_str(), &ast);
            proof {
                reveal(module_error);
                reveal(module_compiles_to);
                if r is Ok {
                    assert(module_compiles_to(*module, ast, r->Ok_0.0@, pairs_view(r->Ok_0.1@)));
                } else {
                    assert(module_error(*module, ast, r->Err_0));
                }
            }
            r
        },
    }
}

impl Compiler {
    /// Compiles resolved modules, in compilation order: each is parsed,
    /// checked and generated; the skill documents of its prompt blocks are
    /// named after the module.  The code of the entry module (the one whose
    /// path is the input) is the output's main code.  The first module that
    /// fails stops the compilation with its error.
    pub fn compile_modules(&self, resolver: &crate::module::ModuleResolver) -> (r: Result<
        CompileOutput,
        CompileError,
    >)
        ensures
            r matches Ok(out) ==> {
                &&& out.source_file@ == self.options_spec().input@
                &&& out.source@ == Seq::<char>::empty()
                &&& out.modules@.len() == resolver.modules_spec().len()
                &&& forall|i: int|
                    0 <= i < out.modules@.len() ==> #[trigger] out.modules@[i].0@ == js_name(
                        resolver.modules_spec()[i].id@,
                    )
                &&& resolver.wf() ==> forall|i: int, j: int|
                    0 <= i < out.modules@.len() && 0 <= j < out.modules@.len() && i != j
                        ==> #[trigger] out.modules@[i].0@ != #[trigger] out.modules@[j].0@
                &&& exists|ps: Seq<Program>, ds: Seq<Seq<(Seq<char>, Seq<char>)>>|
                    #![trigger ps.len(), all_docs(ds)]
                    {
                        &&& ps.len() == out.modules@.len()
                        &&& ds.len() == out.modules@.len()
                        &&& forall|i: int|
                            0 <= i < ps.len() ==> #[trigger] module_compiles_to(
                                resolver.modules_spec()[i],
                                ps[i],
                                out.modules@[i].1@,
                                ds[i],
                            )
                        &&& pairs_view(out.prompts@) == all_docs(ds)
                    }
                &&& (exists|i: int|
                    0 <= i < resolver.modules_spec().len() && resolver.modules_spec()[i].path@
                        == self.options_spec().input@) ==> exists|i: int|
                    0 <= i < out.modules@.len() && resolver.modules_spec()[i].path@
                        == self.options_spec().input@ && out.javascript == #[trigger] out.modules@[i].1
                &&& (forall|i: int|
                    0 <= i < resolver.modules_spec().len() ==> #[trigger] resolver.modules_spec()[i].path@
                        != self.options_spec().input@) ==> out.javascript@ == Seq::<char>::empty()
            },
            r matches Err(CompileError::Parse { file, message: _ }) ==> exists|i: int|
                0 <= i < resolver.modules_spec().len() && #[trigger] resolver.modules_spec()[i].path@
                    == file@,
            match r {
                Err(e) => !(e is Parse) ==> exists|i: int, p: Program|
                    0 <= i < resolver.modules_spec().len() && #[trigger] module_error(
                        resolver.modules_spec()[i],
                        p,
                        e,
                    ),
                Ok(_) => true,
            },
    {
        let order = resolver.compilation_order();
        let mut modules: Vec<(String, String)> = Vec::new();
        let mut prompts: Vec<(String, String)> = Vec::new();
        let mut entry: Option<usize> = None;
        let ghost mut ps: Seq<Program> = Seq::empty();
        let ghost mut ds: Seq<Seq<(Seq<char>, Seq<char>)>> = Seq::empty();
        let mut i: usize = 0;
        while i < order.len()
            invariant
                i <= order.len(),
                order@.len() == resolver.modules_spec().len(),
                forall|j: int| 0 <= j < order@.len() ==> *order@[j] == #[trigger] resolver.modules_spec()[j],
                modules@.len() == i,
                ps.len() == i,
                ds.len() == i,
                forall|j: int| 0 <= j < i ==> #[trigger] modules@[j].0@ == js_name(
                    resolver.modules_spec()[j].id@,
                ),
                forall|j: int|
                    0 <= j < i ==> #[trigger] module_compiles_to(
                        resolver.modules_spec()[j],
                        ps[j],
                        modules@[j].1@,
                        ds[j],
                    ),
                pairs_view(prompts@) == all_docs(ds),
                match entry {
                    Some(e) => e < i && resolver.modules_spec()[e as int].path@
                        == self.options_spec().input@,
                    None => forall|j: int| 0 <= j < i ==> #[trigger] resolver.modules_spec()[j].path@
                        != self.options_spec().input@,
                },
            decreases order.len() - i,
        {
            let module = order[i];
            proof {
                assert(*order@[i as int] == resolver.modules_spec()[i as int]);
                assert(resolver.modules_spec()[i as int].path@ == module.path@);
            }
            let (js, mut docs) = match compile_module(module) {
                Ok(x) => x,
                Err(e) => {
                    return Err(e);
                },
            };
            let ghost p = choose|p: Program| module_compiles_to(*module, p, js@, pairs_view(docs@));
            let ghost d = pairs_view(docs@);
            let ghost before = prompts@;
            prompts.append(&mut docs);
            proof {
                assert(pairs_view(prompts@) =~= pairs_view(before) + d);
                let ds0 = ds;
                ps = ps.push(p);
                ds = ds.push(d);
                assert(ds.drop_last() =~= ds0);
            }
            if entry.is_none() && str_eq_path(module.path.as_str(), self.options.input.as_str()) {
                entry = Some(i);
            }
            let mut name = module.id.clone();
            name.append(".js");
            modules.push((name, js));
            i = i + 1;
        }
        let javascript = match entry {
            Some(e) => modules[e].1.clone(),
            None => String::new(),
        };
        let out = CompileOutput {
            source_file: self.options.input.clone(),
            source: String::new(),
            javascript,
            modules,
            prompts,
        };
        proof {
            assert(ps.len() == out.modules@.len());
            assert(pairs_view(out.prompts@) == all_docs(ds));
            assert(forall|i: int|
                0 <= i < ps.len() ==> #[trigger] module_compiles_to(
                    resolver.modules_spec()[i],
                    ps[i],
                    out.modules@[i].1@,
                    ds[i],
                ));
            if resolver.wf() {
                crate::module::lemma_module_ids_distinct(*resolver);
                let ids = crate::module::ids_of(resolver.modules_spec());
                assert forall|i: int, j: int|
                    0 <= i < out.modules@.len() && 0 <= j < out.modules@.len() && i != j
                        implies #[trigger] out.modules@[i].0@ != #[trigger] out.modules@[j].0@ by {
                    let a = resolver.modules_spec()[i].id@;
                    let b = resolver.modules_spec()[j].id@;
                    assert(ids[i] == a && ids[j] == b);
                    reveal_strlit(".js");
                    assert(js_name(a).len() == a.len() + 3);
                    assert(js_name(b).len() == b.len() + 3);
                    if js_name(a) == js_name(b) {
                        assert(a.len() == b.len());
                        assert(js_name(a).take(a.len() as int) =~= a);
                        assert(js_name(b).take(b.len() as int) =~= b);
                        assert(a == b);
                    }
                }
            }
        }
        Ok(out)
    }
}

/// Whether two paths are the same text.
fn str_eq_path(a: &str, b: &str) -> (r: bool)
    ensures
        r == (a@ == b@),
{
    crate::prompts::str_eq(a, b)
}

/// The paths of the skill documents, one per template, in order.
proof fn lemma_skill_file_paths(prefix: Seq<char>, ts: Seq<TemplateView>)
    ensures
        skill_files(prefix, ts).len() == ts.len(),
        forall|k: int| 0 <= k < ts.len() ==> #[trigger] skill_files(prefix, ts)[k].0 == "skills/"@
            + skill_name(prefix, ts[k]) + "/SKILL.md"@,
    decreases ts.len(),
{
    if ts.len() > 0 {
        lemma_skill_file_paths(prefix, ts.drop_last());
        assert forall|k: int| 0 <= k < ts.len() implies #[trigger] skill_files(prefix, ts)[k].0
            == "skills/"@ + skill_name(prefix, ts[k]) + "/SKILL.md"@ by {
            if k < ts.len() - 1 {
                assert(ts.drop_last()[k] == ts[k]);
            }
        }
    }
}

/// Texts that end in `_` and a run without `_` agree on that run when they
/// are equal.
proof fn lemma_after_last_underscore(x1: Seq<char>, d1: Seq<char>, x2: Seq<char>, d2: Seq<char>)
    requires
        x1 + "_"@ + d1 == x2 + "_"@ + d2,
        forall|k: int| 0 <= k < d1.len() ==> #[trigger] d1[k] != '_',
        forall|k: int| 0 <= k < d2.len() ==> #[trigger] d2[k] != '_',
    ensures
        d1 == d2,
{
    reveal_strlit("_");
    let s1 = x1 + "_"@ + d1;
    let s2 = x2 + "_"@ + d2;
    let n = s1.len();
    if d1.len() < d2.len() {
        let at = n - d1.len() - 1;
        assert(s1[at] == '_');
        assert(s2[at] == d2[at - x2.len() - 1]);
    } else if d2.len() < d1.len() {
        let at = n - d2.len() - 1;
        assert(s2[at] == '_');
        assert(s1[at] == d1[at - x1.len() - 1]);
    }
    assert(s1.skip(n - d1.len()) =~= d1);
    assert(s2.skip(n - d2.len()) =~= d2);
}

/// Templates at different positions get skill documents at different
/// paths, where each template's id is made of its kind and its position.
proof fn lemma_skill_paths_differ(prefix: Seq<char>, ts: Seq<TemplateView>, i: int, j: int)
    requires
        crate::codegen::ids_numbered(ts),
        0 <= i < ts.len(),
        0 <= j < ts.len(),
        i != j,
    ensures
        "skills/"@ + skill_name(prefix, ts[i]) + "/SKILL.md"@ != "skills/"@ + skill_name(prefix, ts[j])
            + "/SKILL.md"@,
{
    let si = skill_name(prefix, ts[i]);
    let sj = skill_name(prefix, ts[j]);
    let pi = "skills/"@ + si + "/SKILL.md"@;
    let pj = "skills/"@ + sj + "/SKILL.md"@;
    if pi == pj {
        reveal_strlit("skills/");
        reveal_strlit("/SKILL.md");
        assert(pi.subrange(7, pi.len() - 9) =~= si);
        assert(pj.subrange(7, pj.len() - 9) =~= sj);
        let xi = prefix + "_"@ + ts[i].worker_name + "_"@ + crate::prompts::kind_name(ts[i].kind);
        let xj = prefix + "_"@ + ts[j].worker_name + "_"@ + crate::prompts::kind_name(ts[j].kind);
        assert(ts[i].id == template_id(ts[i].kind, i as nat));
        assert(ts[j].id == template_id(ts[j].kind, j as nat));
        assert(si =~= xi + "_"@ + decimal(i as nat));
        assert(sj =~= xj + "_"@ + decimal(j as nat));
        lemma_decimal_no_underscore(i as nat);
        lemma_decimal_no_underscore(j as nat);
        lemma_after_last_underscore(xi, decimal(i as nat), xj, decimal(j as nat));
        lemma_decimal_injective(i as nat, j as nat);
    }
}

/// The skill documents of a program compiled as a module, whatever its
/// prefix, have distinct paths, so that no document overwrites another.
pub proof fn law_skill_paths_distinct(prefix: Seq<char>, p: Program)
    ensures
        compile_spec(p) matches Ok((code, ts)) ==> forall|i: int, j: int|
            0 <= i < skill_files(prefix, ts).len() && 0 <= j < skill_files(prefix, ts).len() && i
                != j ==> #[trigger] skill_files(prefix, ts)[i].0 != #[trigger] skill_files(
                prefix,
                ts,
            )[j].0,
{
    match compile_spec(p) {
        Ok((code, ts)) => {
            law_template_ids_distinct(fresh_state(), p.items@);
            assert(crate::codegen::ids_numbered(ts));
            lemma_skill_file_paths(prefix, ts);
            assert forall|i: int, j: int|
                0 <= i < skill_files(prefix, ts).len() && 0 <= j < skill_files(prefix, ts).len()
                    && i != j implies #[trigger] skill_files(prefix, ts)[i].0
                != #[trigger] skill_files(prefix, ts)[j].0 by {
                lemma_skill_paths_differ(prefix, ts, i, j);
            }
        },
        Err(_) => {},
    }
}

/// The prompt templates of a program compiled as a single file have
/// distinct ids: `think_<n>` or `ask_<n>` for the `n`-th prompt block.
pub proof fn law_prompt_keys_distinct(p: Program)
    ensures
        compile_spec(p) matches Ok((code, ts)) ==> {
            &&& prompt_entries(ts).len() == ts.len()
            &&& forall|i: int|
                0 <= i < ts.len() ==> #[trigger] prompt_entries(ts)[i].0 == template_id(ts[i].kind, i as nat)
            &&& forall|i: int, j: int|
                0 <= i < ts.len() && 0 <= j < ts.len() && i != j ==> #[trigger] prompt_entries(ts)[i].0
                    != #[trigger] prompt_entries(ts)[j].0
        },
{
    match compile_spec(p) {
        Ok((code, ts)) => {
            law_template_ids_distinct(fresh_state(), p.items@);
        },
        Err(_) => {},
    }
}

} // verus!
