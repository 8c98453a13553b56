use patchwork::ast::{Block, Expr, Item, Pattern, Program, Statement, TypeExpr, WorkerDecl};
use patchwork::parser::parse;
use patchwork::typecheck::{Scope, SymbolKind, Type, TypeChecker};

#[test]
fn test_undefined_variable() {
    let program = Program {
        items: vec![
            Item::Worker(WorkerDecl {
                name: "test",
                params: vec![],
                body: Block {
                    statements: vec![
                        Statement::Expr(Expr::Identifier("undefined_var"))
                    ]
                },
                is_exported: false,
                is_default: false,
            })
        ]
    };

    let mut checker = TypeChecker::new();
    let result = checker.check_program(&program);

    assert!(result.is_err());
    assert!(result.unwrap_err().message().contains("Undefined variable"));
}

#[test]
fn test_duplicate_declaration() {
    let program = Program {
        items: vec![
            Item::Worker(WorkerDecl {
                name: "test",
                params: vec![],
                body: Block {
                    statements: vec![
                        Statement::VarDecl {
                            pattern: Pattern::Identifier {
                                name: "x",
                                type_ann: None,
                            },
                            init: Some(Expr::Number("1")),
                        },
                        Statement::VarDecl {
                            pattern: Pattern::Identifier {
                                name: "x",
                                type_ann: None,
                            },
                            init: Some(Expr::Number("2")),
                        },
                    ]
                },
                is_exported: false,
                is_default: false,
            })
        ]
    };

    let mut checker = TypeChecker::new();
    let result = checker.check_program(&program);

    assert!(result.is_err());
    assert!(result.unwrap_err().message().contains("Duplicate declaration"));
}

fn check(src: &str) -> Result<(), String> {
    let program = parse(src).expect("parse failed");
    let mut checker = TypeChecker::new();
    checker.check_program(&program).map_err(|e| e.message())
}

#[test]
fn typecheck_accepts_params_and_locals() {
    assert_eq!(check("worker w(a, b) {\n var c = a + b\n return c\n}"), Ok(()));
}

#[test]
fn typecheck_for_variable_is_scoped_to_the_loop() {
    assert_eq!(check("worker w(xs) {\n for var x in xs {\n print(x)\n }\n}"), Ok(()));
    assert_eq!(
        check("worker w(xs) {\n for var x in xs {\n }\n print(x)\n}"),
        Err("Type error: Undefined variable 'x'".to_string())
    );
}

#[test]
fn typecheck_duplicate_parameter() {
    assert_eq!(
        check("fun f(a, a) {\n}"),
        Err("Type error: Duplicate declaration of 'a'".to_string())
    );
}

#[test]
fn typecheck_self_is_declared() {
    assert_eq!(check("worker w() {\n var s = self.session\n}"), Ok(()));
}

#[test]
fn typecheck_functions_visible_before_declaration() {
    assert_eq!(check("worker a() {\n b()\n}\nfun b() {\n}"), Ok(()));
}

#[test]
fn typecheck_std_cat_import_clashes_with_builtin() {
    assert_eq!(
        check("import std.cat"),
        Err("Type error: Duplicate declaration of 'cat'".to_string())
    );
    assert_eq!(check("import std.log\nworker w() {\n log(1)\n}"), Ok(()));
}

#[test]
fn scope_lookup_finds_innermost() {
    let mut global = Scope::new_global();
    assert!(global.lookup("print").is_some());
    assert_eq!(global.depth(), 0);
    global.add_symbol("x".to_string(), Type::Number, SymbolKind::Variable).unwrap();
    let mut child = Scope::new_child(global);
    assert_eq!(child.depth(), 1);
    child.add_symbol("x".to_string(), Type::String, SymbolKind::Variable).unwrap();
    let found = child.lookup("x").unwrap();
    assert_eq!(found.ty, Type::String);
    assert_eq!(found.scope_depth, 1);
    assert!(child.add_symbol("x".to_string(), Type::Bool, SymbolKind::Variable).is_err());
    assert!(child.lookup("missing").is_none());
    let parent = child.take_parent().unwrap();
    assert_eq!(parent.lookup("x").unwrap().ty, Type::Number);
}

#[test]
fn type_from_type_expr_maps_primitives() {
    assert_eq!(Type::from_type_expr(&TypeExpr::Name("int")), Type::Number);
    assert_eq!(Type::from_type_expr(&TypeExpr::Name("boolean")), Type::Bool);
    assert_eq!(Type::from_type_expr(&TypeExpr::Name("Msg")), Type::Named("Msg".to_string()));
    assert_eq!(Type::from_type_expr(&TypeExpr::Literal("ok")), Type::String);
    assert_eq!(
        Type::from_type_expr(&TypeExpr::Array(Box::new(TypeExpr::Name("string")))),
        Type::Array(Box::new(Type::String))
    );
}

#[test]
fn global_scope_finds_builtins_only() {
    let s = patchwork::typecheck::Scope::new_global();
    assert!(s.lookup("print").is_some());
    assert!(s.lookup("cat").is_some());
    assert!(s.lookup("x").is_none());
}

#[test]
fn for_loop_scope_is_dropped_after_the_body() {
    assert!(check("worker w() {\n for var i in [1, 2] {\n  print(i)\n }\n}").is_ok());
    assert_eq!(
        check("worker w() {\n for var i in [1, 2] {\n  print(i)\n }\n print(i)\n}").unwrap_err(),
        "Type error: Undefined variable 'i'"
    );
}
