use projets2020::automata::line_counter::Span;
use projets2020::parser::ast::{Block, Decl, DeclVal, Exp, ExpVal, Function, LValue, LocatedIdent, Param, StaticType, Structure};
use projets2020::parser::typing::data::GlobalEnvironmentState;
use projets2020::parser::typing::main::static_type;
use projets2020::ir::ast_to_hir::typed_ast_to_hir;
use projets2020::ir::hir;

fn sp(line: usize) -> Span<'static> {
    Span { file: "p.pj", start: (0, line, 1), end: (0, line, 2) }
}

fn ident(name: &str, line: usize) -> LocatedIdent<'static> {
    LocatedIdent::new(sp(line), name.to_string())
}

fn param(name: &str, ty: Option<&str>, line: usize) -> Param<'static> {
    Param::new(sp(line), ident(name, line), ty.map(|t| ident(t, line)))
}

fn var(name: &str, line: usize) -> Exp<'static> {
    Exp::new(sp(line), ExpVal::LValue(LValue::new(sp(line), None, name.to_string())))
}

fn structure(name: &str, fields: Vec<Param<'static>>, line: usize) -> Decl<'static> {
    Decl::new(sp(line), DeclVal::Structure(Structure::new(sp(line), false, ident(name, line), fields)))
}

fn function(name: &str, params: Vec<Param<'static>>, ret: Option<&str>, body: Vec<Exp<'static>>, line: usize) -> Decl<'static> {
    let b = Block::new(sp(line), body, false);
    Decl::new(sp(line), DeclVal::Function(Function::new(sp(line), name.to_string(), params, ret.map(|t| ident(t, line)), b)))
}

fn global(e: Exp<'static>, line: usize) -> Decl<'static> {
    Decl::new(sp(line), DeclVal::Exp(e))
}

fn message_of(decls: Vec<Decl<'static>>) -> (usize, String) {
    match static_type(decls) {
        Ok(_) => panic!("an error was expected"),
        Err(e) => (e.span().start.1, e.to_string()),
    }
}

#[test]
fn a_program_is_typed() {
    let decls = vec![
        structure("P", vec![param("x", Some("Int64"), 1), param("next", Some("P"), 1)], 1),
        function("f", vec![param("a", Some("Int64"), 2)], Some("Int64"), vec![var("a", 2)], 2),
        global(Exp::new(sp(3), ExpVal::Assign(LValue::new(sp(3), None, "y".to_string()),
            Exp::new(sp(3), ExpVal::Call("f".to_string(), vec![Exp::new(sp(3), ExpVal::Int(3))])))), 3),
        global(var("y", 4), 4),
    ];
    let typed = match static_type(decls) {
        Ok(t) => t,
        Err(e) => panic!("{}", e.to_string()),
    };
    assert_eq!(typed.structures.len(), 1);
    assert_eq!(typed.structures[0].0, "P");
    assert_eq!(typed.functions.len(), 1);
    assert_eq!(typed.functions[0].0, "f");
    assert_eq!(typed.functions[0].1.len(), 1);
    assert_eq!(typed.global_expressions.len(), 2);
    assert!(matches!(typed.global_expressions[1].static_ty, StaticType::Any));
}

#[test]
fn an_empty_program_is_typed() {
    let typed = match static_type(vec![]) {
        Ok(t) => t,
        Err(e) => panic!("{}", e.to_string()),
    };
    assert!(typed.functions.is_empty() && typed.structures.is_empty() && typed.global_expressions.is_empty());
}

#[test]
fn structures_are_named_once() {
    let (line, m) = message_of(vec![structure("P", vec![], 1), structure("P", vec![], 2)]);
    assert_eq!(line, 2);
    assert!(m.ends_with("The ident 'P' is already taken by another structure"));
}

#[test]
fn fields_are_named_once() {
    let (line, m) = message_of(vec![
        structure("P", vec![param("x", None, 1)], 1),
        structure("Q", vec![param("x", None, 2)], 2),
    ]);
    assert_eq!(line, 2);
    assert!(m.ends_with("The field name 'x' is already taken by this structure or another one"));
}

#[test]
fn fields_have_known_types() {
    let (_, m) = message_of(vec![structure("Q", vec![param("y", Some("R"), 1)], 1)]);
    assert!(m.ends_with("This type is malformed, either it is not a primitive, or it's not this structure itself or another structure declared before"));
}

#[test]
fn reserved_names_are_refused() {
    let (_, m) = message_of(vec![function("print", vec![], None, vec![], 1)]);
    assert!(m.ends_with("The ident 'print' is a reserved name, it cannot be used as a function name"));
}

#[test]
fn return_types_are_known() {
    let (_, m) = message_of(vec![function("f", vec![], Some("Foo"), vec![], 1)]);
    assert!(m.ends_with("The return type 'Structure 'Foo'' of 'f' is malformed, either it's not a primitive or a declared structure"));
}

#[test]
fn parameters_are_named_once() {
    let (_, m) = message_of(vec![function("f", vec![param("a", None, 1), param("a", None, 1)], None, vec![], 1)]);
    assert!(m.ends_with("The ident 'a' is already taken by another argument"));
}

#[test]
fn parameters_have_known_types() {
    let (_, m) = message_of(vec![function("f", vec![param("a", Some("Foo"), 1)], None, vec![], 1)]);
    assert!(m.ends_with("This type is malformed, either it is not a primitive or it's not a declared before structure"));
}

#[test]
fn signatures_are_defined_once() {
    let (line, m) = message_of(vec![
        function("f", vec![param("a", Some("Int64"), 1)], None, vec![], 1),
        function("f", vec![param("b", Some("Bool"), 2)], None, vec![], 2),
        function("f", vec![param("c", Some("Int64"), 3)], None, vec![], 3),
    ]);
    assert_eq!(line, 3);
    assert!(m.ends_with("The function 'f' has already been defined with the exact same signature (::Int64), add type annotations to disambiguate or remove duplicates"));
}

#[test]
fn bodies_are_checked_against_return_types() {
    let (_, m) = message_of(vec![function("f", vec![], Some("Int64"), vec![Exp::new(sp(1), ExpVal::Bool(true))], 1)]);
    assert!(m.ends_with("Invalid type for implicit return in function 'f', expected 'Int64', found: 'Bool'"));
}

#[test]
fn the_first_pass_enters_declarations() {
    let mut g = GlobalEnvironmentState::init();
    let s = Structure::new(sp(1), true, ident("P", 1), vec![param("x", Some("Int64"), 1), param("me", Some("P"), 1)]);
    assert!(g.visit_structure(s).is_ok());
    assert_eq!(g.all_structure_fields.len(), 2);
    assert_eq!(g.all_mutable_fields, vec!["x".to_string(), "me".to_string()]);
    assert!(g.known_types.iter().any(|t| matches!(t, StaticType::Struct(n) if n == "P")));
    let f = Function::new(sp(2), "f".to_string(), vec![param("a", None, 2)], None, Block::new(sp(2), vec![], true));
    assert!(g.visit_function(f).is_ok());
    let f2 = Function::new(sp(3), "f".to_string(), vec![param("a", Some("Int64"), 3)], None, Block::new(sp(3), vec![], true));
    assert!(g.visit_function(f2).is_ok());
    assert_eq!(g.function_sigs.len(), 1);
    assert_eq!(g.function_sigs[0].1.len(), 2);
    assert_eq!(g.functions[0].1.len(), 2);
    let e = Exp::new(sp(4), ExpVal::Assign(LValue::new(sp(4), None, "v".to_string()), var("w", 4)));
    assert!(g.visit_expression(e).is_ok());
    let e2 = Exp::new(sp(5), ExpVal::Assign(LValue::new(sp(5), None, "v".to_string()), var("w", 5)));
    assert!(g.visit_decl(Decl::new(sp(5), DeclVal::Exp(e2))).is_ok());
    assert_eq!(g.global_variables, vec!["v".to_string()]);
    assert_eq!(g.global_expressions.len(), 2);
}

#[test]
fn a_typed_program_in_the_high_level_language() {
    let decls = vec![
        structure("P", vec![param("x", Some("Int64"), 1)], 1),
        function("f", vec![param("a", Some("Int64"), 2)], Some("Int64"), vec![var("a", 2)], 2),
        function("f", vec![param("a", None, 3)], None, vec![var("a", 3)], 3),
        function("main", vec![], None, vec![Exp::new(sp(4), ExpVal::Call("f".to_string(), vec![Exp::new(sp(4), ExpVal::Int(2))]))], 4),
        global(Exp::new(sp(5), ExpVal::Assign(LValue::new(sp(5), None, "y".to_string()), Exp::new(sp(5), ExpVal::Int(3)))), 5),
    ];
    let typed = match static_type(decls) {
        Ok(t) => t,
        Err(e) => panic!("{}", e.to_string()),
    };
    let src = match typed_ast_to_hir(typed) {
        Ok(s) => s,
        Err(e) => panic!("{}", e),
    };
    assert_eq!(src.entrypoint, "__start");
    assert!(src.globals.contains(&"_gy".to_string()));
    assert!(src.globals.contains(&"_gnothing".to_string()));
    let names: Vec<String> = src.decls.iter().map(|d| match d {
        hir::Decl::Function(f) => f.name.clone(),
        hir::Decl::Struct(s) => format!("struct {}", s.name),
    }).collect();
    assert_eq!(names, vec!["struct P", "f_0", "f_1", "f", "main", "__start"]);
    match &src.decls[3] {
        hir::Decl::Function(f) => {
            assert_eq!(f.args, vec!["a".to_string()]);
            assert!(matches!(f.body.stmts.last(), Some(hir::Statement::Return(hir::Val::Var(_)))));
        },
        _ => panic!("a function was expected"),
    }
    match &src.decls[5] {
        hir::Decl::Function(f) => {
            assert!(f.args.is_empty());
            assert!(matches!(&f.body.stmts[0], hir::Statement::Call(hir::LValue::Var(v), hir::Callable::Assign(hir::Val::Const(hir::Type::Int64, 3))) if v == "y"));
        },
        _ => panic!("a function was expected"),
    }
}
