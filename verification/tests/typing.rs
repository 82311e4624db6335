use projets2020::automata::line_counter::Span;
use projets2020::parser::ast::{
    Block, Else, ElseVal, Exp, ExpVal, Function, LValue, LocatedIdent, Param, Scope, StaticType, BinOp,
};
use projets2020::parser::typing::assign::{collect_all_assign, collect_all_assign_in_array};
use projets2020::parser::typing::data::{
    is_builtin_function, is_compatible, EnvVariable, GlobalEnvironmentState, TypingContext,
};
use projets2020::parser::typing::fill::{type_block, type_expression};
use projets2020::parser::typing::func_signatures::{
    build_signature, compute_ambiguous_signature, compute_selectivity_weight, format_signature, is_callable_with,
    is_callable_with_exactly, is_this_call_ambiguous, match_score,
};
use projets2020::parser::typing::return_checks::{verify_explicit_returns, verify_implicit_return};

fn sp(line: usize) -> Span<'static> {
    Span { file: "t.pj", start: (0, line, 1), end: (0, line, 2) }
}

fn ident(name: &str, line: usize) -> LocatedIdent<'static> {
    LocatedIdent::new(sp(line), name.to_string())
}

fn num(n: i64, line: usize) -> Exp<'static> {
    Exp::new(sp(line), ExpVal::Int(n))
}

fn string(s: &str, line: usize) -> Exp<'static> {
    Exp::new(sp(line), ExpVal::Str(s.to_string()))
}

fn var(name: &str, line: usize) -> Exp<'static> {
    Exp::new(sp(line), ExpVal::LValue(LValue::new(sp(line), None, name.to_string())))
}

fn assign(name: &str, e: Exp<'static>, line: usize) -> Exp<'static> {
    Exp::new(sp(line), ExpVal::Assign(LValue::new(sp(line), None, name.to_string()), e))
}

fn empty_context() -> TypingContext<'static> {
    TypingContext {
        functions: vec![],
        structures: vec![],
        known_types: vec![],
        mutable_fields: vec![],
        all_fields: vec![],
        structure_name_by_fields: vec![],
        previous_scope: Scope::Global,
        current_scope: Scope::Global,
        environment: vec![],
    }
}

#[test]
fn compatibility_of_types() {
    assert!(is_compatible(StaticType::Any, StaticType::Int64));
    assert!(is_compatible(StaticType::Bool, StaticType::Any));
    assert!(is_compatible(StaticType::Str, StaticType::Str));
    assert!(!is_compatible(StaticType::Int64, StaticType::Bool));
    assert!(is_compatible(StaticType::Struct("a".to_string()), StaticType::Struct("a".to_string())));
    assert!(!is_compatible(StaticType::Struct("a".to_string()), StaticType::Struct("b".to_string())));
}

#[test]
fn builtin_functions() {
    assert!(is_builtin_function(&"println".to_string()));
    assert!(is_builtin_function(&"print".to_string()));
    assert!(is_builtin_function(&"div".to_string()));
    assert!(!is_builtin_function(&"main".to_string()));
}

#[test]
fn variables_of_the_environment() {
    let v = EnvVariable::init();
    assert!(matches!(v.ty, StaticType::Any));
    assert_eq!(v.scope, Scope::Global);
    let l = EnvVariable::local();
    assert_eq!(l.scope, Scope::Local);
    let t = EnvVariable::typed(StaticType::Int64);
    assert!(matches!(t.ty, StaticType::Int64));
    assert_eq!(t.scope, Scope::Global);
}

#[test]
fn initial_global_state_knows_builtin_types() {
    let g = GlobalEnvironmentState::init();
    assert!(g.structures.is_empty() && g.functions.is_empty() && g.global_expressions.is_empty());
    let names: Vec<String> = g.known_types.iter().map(|t| t.to_string()).collect();
    assert_eq!(names, vec!["Any", "String", "Bool", "Int64", "Nothing"]);
}

#[test]
fn push_then_pop_restores_the_environment() {
    let mut ctx = empty_context();
    let x = ident("x", 1);
    ctx.push_to_env(&x, StaticType::Int64, Scope::Global);
    assert!(matches!(ctx.type_from_env_name(&"x".to_string()), Some(StaticType::Int64)));
    ctx.push_to_env(&x, StaticType::Str, Scope::Local);
    assert!(matches!(ctx.type_from_env_name(&"x".to_string()), Some(StaticType::Str)));
    assert_eq!(ctx.scope_from_env_name(&"x".to_string()), Some(Scope::Local));
    ctx.pop_from_env(&x);
    assert!(matches!(ctx.type_from_env_name(&"x".to_string()), Some(StaticType::Int64)));
    assert_eq!(ctx.scope_from_env_name(&"x".to_string()), Some(Scope::Global));
    ctx.pop_from_env(&x);
    assert!(!ctx.is_alive_in_env(&x));
    assert!(ctx.type_from_env_name(&"x".to_string()).is_none());
    // popping an unbound name changes nothing
    ctx.pop_from_env(&x);
    assert!(ctx.environment.is_empty());
}

#[test]
fn extend_then_unextend_restores_the_environment() {
    let mut ctx = empty_context();
    ctx.push_to_env(&ident("a", 1), StaticType::Bool, Scope::Global);
    let ids = vec![ident("a", 2), ident("b", 3), ident("a", 4)];
    let back = ctx.extend_local_env(ids);
    assert_eq!(back.len(), 3);
    assert!(matches!(ctx.type_from_env_name(&"a".to_string()), Some(StaticType::Any)));
    assert_eq!(ctx.scope_from_env_name(&"b".to_string()), Some(Scope::Local));
    ctx.unextend_env(back);
    assert!(matches!(ctx.type_from_env_name(&"a".to_string()), Some(StaticType::Bool)));
    assert!(!ctx.is_alive_in_env(&ident("b", 5)));
}

#[test]
fn scopes_are_entered_and_restored() {
    let mut ctx = empty_context();
    ctx.enter_in_local_scope();
    assert_eq!(ctx.current_scope, Scope::Local);
    assert_eq!(ctx.previous_scope, Scope::Global);
    ctx.restore_previous_scope();
    assert_eq!(ctx.current_scope, Scope::Global);
}

#[test]
fn unique_return_types() {
    let mut ctx = empty_context();
    ctx.functions.push(("f".to_string(), vec![(StaticType::Int64, vec![StaticType::Bool])]));
    ctx.functions.push((
        "g".to_string(),
        vec![(StaticType::Int64, vec![StaticType::Bool]), (StaticType::Str, vec![StaticType::Int64])],
    ));
    assert!(matches!(
        ctx.get_potentially_unique_return_type_for_function(&"f".to_string()),
        Some(StaticType::Int64)
    ));
    assert!(ctx.get_potentially_unique_return_type_for_function(&"g".to_string()).is_none());
    assert!(ctx.get_potentially_unique_return_type_for_function(&"h".to_string()).is_none());
}

#[test]
fn fields_of_types() {
    let mut ctx = empty_context();
    let fields = vec![Param::new(sp(1), ident("x", 1), None)];
    let s = projets2020::parser::ast::Structure::new(sp(1), true, ident("point", 1), fields);
    ctx.structures.push(("point".to_string(), s));
    assert!(ctx.field_exist_in(&StaticType::Any, &"y".to_string()));
    assert!(ctx.field_exist_in(&StaticType::Struct("point".to_string()), &"x".to_string()));
    assert!(!ctx.field_exist_in(&StaticType::Struct("point".to_string()), &"y".to_string()));
    assert!(!ctx.field_exist_in(&StaticType::Int64, &"x".to_string()));
}

#[test]
fn scores_and_weights() {
    assert_eq!(match_score(&StaticType::Any, &StaticType::Int64), 0);
    assert_eq!(match_score(&StaticType::Int64, &StaticType::Int64), 1);
    assert_eq!(match_score(&StaticType::Int64, &StaticType::Bool), -1);
    let sig = (StaticType::Nothing, vec![StaticType::Int64, StaticType::Bool, StaticType::Str]);
    assert_eq!(compute_selectivity_weight(&vec![StaticType::Int64, StaticType::Any], &sig), 1);
    assert_eq!(compute_selectivity_weight(&vec![StaticType::Bool, StaticType::Bool, StaticType::Str], &sig), 1);
}

#[test]
fn callability() {
    let sig = (StaticType::Nothing, vec![StaticType::Int64, StaticType::Any]);
    assert!(is_callable_with(&vec![StaticType::Any, StaticType::Str], &sig));
    assert!(!is_callable_with(&vec![StaticType::Bool, StaticType::Str], &sig));
    assert!(is_callable_with_exactly(vec![StaticType::Int64, StaticType::Any], &sig));
    assert!(!is_callable_with_exactly(vec![StaticType::Int64, StaticType::Str], &sig));
}

#[test]
fn ambiguous_calls() {
    let sigs = vec![
        (StaticType::Nothing, vec![StaticType::Int64, StaticType::Any]),
        (StaticType::Nothing, vec![StaticType::Any, StaticType::Int64]),
    ];
    assert!(is_this_call_ambiguous(vec![StaticType::Int64, StaticType::Int64], &sigs));
    let sigs2 = vec![
        (StaticType::Nothing, vec![StaticType::Int64]),
        (StaticType::Nothing, vec![StaticType::Bool]),
    ];
    assert!(!is_this_call_ambiguous(vec![StaticType::Int64], &sigs2));
    let enriched = compute_ambiguous_signature(vec![StaticType::Any, StaticType::Int64], &sigs).unwrap();
    assert_eq!(format_signature(enriched), "::Int64, ::Int64");
    assert!(compute_ambiguous_signature(vec![StaticType::Int64], &sigs2).is_none());
}

#[test]
fn signatures_are_formatted() {
    assert_eq!(format_signature(vec![]), "");
    assert_eq!(
        format_signature(vec![StaticType::Str, StaticType::Struct("p".to_string())]),
        "::String, ::Structure 'p'"
    );
}

#[test]
fn signatures_of_functions() {
    let params = vec![
        Param::new(sp(1), ident("a", 1), Some(ident("Int64", 1))),
        Param::new(sp(1), ident("b", 1), None),
    ];
    let f = Function::new(sp(1), "f".to_string(), params, Some(ident("Bool", 1)), Block::new(sp(1), vec![], false));
    let (ret, ps) = build_signature(&f);
    assert!(matches!(ret, StaticType::Bool));
    assert_eq!(ps.len(), 2);
    assert!(matches!(ps[0], StaticType::Int64));
    assert!(matches!(ps[1], StaticType::Any));
}

#[test]
fn assignments_are_collected_in_order() {
    let e1 = assign("x", num(1, 1), 1);
    let e2 = Exp::new(sp(2), ExpVal::BinOp(BinOp::Plus, assign("y", num(2, 2), 2), assign("z", num(3, 2), 2)));
    let loop_body = Block::new(sp(3), vec![assign("w", num(4, 3), 3)], false);
    let e3 = Exp::new(sp(3), ExpVal::While(var("b", 3), loop_body));
    let all = collect_all_assign_in_array(&vec![e1, e2, e3]);
    let names: Vec<String> = all.iter().map(|l| l.name.clone()).collect();
    assert_eq!(names, vec!["x", "y", "z"]);
    let nested = assign("a", assign("b", num(1, 4), 4), 4);
    let names: Vec<String> = collect_all_assign(&nested).iter().map(|l| l.name.clone()).collect();
    assert_eq!(names, vec!["b", "a"]);
}

#[test]
fn assignments_of_two_lists_are_those_of_each() {
    let names = |v: Vec<Exp<'static>>| -> Vec<String> { collect_all_assign_in_array(&v).iter().map(|l| l.name.clone()).collect() };
    let a = || vec![assign("x", num(1, 1), 1), assign("y", num(2, 1), 1)];
    let b = || vec![assign("z", assign("w", num(3, 2), 2), 2)];
    let mut ab = a();
    ab.extend(b());
    let mut expected = names(a());
    expected.extend(names(b()));
    assert_eq!(names(ab), expected);
    assert_eq!(names(vec![]), Vec::<String>::new());
    let one: Vec<String> = collect_all_assign(&assign("q", num(1, 3), 3)).iter().map(|l| l.name.clone()).collect();
    assert_eq!(names(vec![assign("q", num(1, 3), 3)]), one);
}

#[test]
fn implicit_return_of_a_function() {
    let mut last = string("s", 7);
    last.static_ty = StaticType::Str;
    let body = Block::new(sp(6), vec![last], false);
    let f = Function::new(sp(5), "f".to_string(), vec![], Some(ident("Int64", 5)), body);
    let e = verify_implicit_return(&f).unwrap_err();
    assert_eq!(e.span().start.1, 7);
    assert!(e.to_string().ends_with(
        "Invalid type for implicit return in function 'f', expected 'Int64', found: 'String'"
    ));
    let empty = Function::new(sp(5), "g".to_string(), vec![], Some(ident("Bool", 5)), Block::new(sp(6), vec![], false));
    let e = verify_implicit_return(&empty).unwrap_err();
    assert!(e.to_string().ends_with("Empty function 'g' returning `nothing` while 'Bool' was expected"));
    let ended = Function::new(sp(5), "h".to_string(), vec![], Some(ident("Bool", 5)), Block::new(sp(6), vec![], true));
    assert!(verify_implicit_return(&ended).is_ok());
}

#[test]
fn explicit_returns_are_checked() {
    let mut v = num(1, 3);
    v.static_ty = StaticType::Int64;
    let ret = Exp::new(sp(2), ExpVal::Return(Some(v)));
    let block = Block::new(sp(1), vec![ret], true);
    assert!(verify_explicit_returns(&block, StaticType::Int64).is_ok());
    let e = verify_explicit_returns(&block, StaticType::Bool).unwrap_err();
    assert_eq!(e.span().start.1, 3);
    assert!(e.to_string().ends_with("Mismatching return types, found: 'Int64', expected: 'Bool'"));
    let bare = Block::new(sp(1), vec![Exp::new(sp(4), ExpVal::Return(None))], true);
    let e = verify_explicit_returns(&bare, StaticType::Str).unwrap_err();
    assert!(e.to_string().ends_with("Mismatching return types, found nothing, expected: 'String'"));
    assert!(verify_explicit_returns(&bare, StaticType::Nothing).is_ok());
}

#[test]
fn typing_arithmetic() {
    let mut ctx = empty_context();
    let mut e = Exp::new(sp(1), ExpVal::BinOp(BinOp::Plus, num(1, 1), num(2, 1)));
    assert!(type_expression(&mut ctx, &mut e).is_ok());
    assert!(matches!(e.static_ty, StaticType::Int64));
    let mut bad = Exp::new(sp(1), ExpVal::BinOp(BinOp::Plus, num(1, 1), string("a", 2)));
    let err = type_expression(&mut ctx, &mut bad).unwrap_err();
    assert_eq!(err.span().start.1, 2);
    assert!(err.to_string().ends_with("No such operation '+' for signature (::Int64, ::String)"));
    let mut cmp = Exp::new(sp(1), ExpVal::BinOp(BinOp::Leq, num(1, 1), num(2, 1)));
    assert!(type_expression(&mut ctx, &mut cmp).is_ok());
    assert!(matches!(cmp.static_ty, StaticType::Bool));
}

#[test]
fn typing_variables() {
    let mut ctx = empty_context();
    let mut e = var("x", 3);
    let err = type_expression(&mut ctx, &mut e).unwrap_err();
    assert!(err.to_string().ends_with("No variable named 'x' is declared in this scope"));
    ctx.push_to_env(&ident("x", 1), StaticType::Int64, Scope::Global);
    let mut e = var("x", 3);
    assert!(type_expression(&mut ctx, &mut e).is_ok());
    assert!(matches!(e.static_ty, StaticType::Int64));
    let mut a = assign("x", string("s", 4), 4);
    let err = type_expression(&mut ctx, &mut a).unwrap_err();
    assert_eq!(err.span().start.1, 4);
    assert!(err.to_string().ends_with("Expected on the lhs 'Int64' type, found: 'String' on the rhs"));
}

#[test]
fn typing_conditions_and_loops() {
    let mut ctx = empty_context();
    let then = Block::new(sp(2), vec![num(1, 2)], true);
    let other = Else::new(sp(3), ElseVal::Else(Block::new(sp(3), vec![num(2, 3)], true)));
    let cond = Exp::new(sp(1), ExpVal::Bool(true));
    let mut e = Exp::new(sp(1), ExpVal::If(cond, then, other));
    assert!(type_expression(&mut ctx, &mut e).is_ok());
    assert!(matches!(e.static_ty, StaticType::Int64));
    assert_eq!(ctx.current_scope, Scope::Global);
    let bad_cond = num(5, 4);
    let mut w = Exp::new(sp(4), ExpVal::While(bad_cond, Block::new(sp(4), vec![], false)));
    let err = type_expression(&mut ctx, &mut w).unwrap_err();
    assert!(err.to_string().ends_with("Non-boolean (Int64) used in boolean context"));
    // the loop's own assignments are local to its body
    let body = Block::new(sp(5), vec![assign("k", num(1, 5), 5)], false);
    let mut w = Exp::new(sp(5), ExpVal::While(Exp::new(sp(5), ExpVal::Bool(false)), body));
    assert!(type_expression(&mut ctx, &mut w).is_ok());
    assert!(matches!(w.static_ty, StaticType::Nothing));
    assert!(!ctx.is_alive_in_env(&ident("k", 6)));
}

#[test]
fn typing_calls() {
    let mut ctx = empty_context();
    let mut e = Exp::new(sp(1), ExpVal::Call("nothere".to_string(), vec![]));
    let err = type_expression(&mut ctx, &mut e).unwrap_err();
    assert!(err.to_string().ends_with("There is no such function or structure named 'nothere'"));
    let mut d = Exp::new(sp(1), ExpVal::Call("div".to_string(), vec![num(1, 1)]));
    let err = type_expression(&mut ctx, &mut d).unwrap_err();
    assert!(err.to_string().ends_with("`div` was called here with less or more than two arguments!"));
    let mut d = Exp::new(sp(1), ExpVal::Call("div".to_string(), vec![num(6, 1), num(3, 1)]));
    assert!(type_expression(&mut ctx, &mut d).is_ok());
    assert!(matches!(d.static_ty, StaticType::Int64));
    ctx.functions.push(("f".to_string(), vec![(StaticType::Bool, vec![StaticType::Int64])]));
    let mut c = Exp::new(sp(2), ExpVal::Call("f".to_string(), vec![num(1, 2)]));
    assert!(type_expression(&mut ctx, &mut c).is_ok());
    assert!(matches!(c.static_ty, StaticType::Bool));
    let mut c = Exp::new(sp(2), ExpVal::Call("f".to_string(), vec![string("s", 3)]));
    let err = type_expression(&mut ctx, &mut c).unwrap_err();
    assert_eq!(err.span().start.1, 3);
    assert!(err.to_string().ends_with("Incompatible types. Expected 'Int64', found 'String'"));
    ctx.functions.push((
        "g".to_string(),
        vec![
            (StaticType::Bool, vec![StaticType::Int64, StaticType::Any]),
            (StaticType::Bool, vec![StaticType::Any, StaticType::Int64]),
        ],
    ));
    let mut c = Exp::new(sp(4), ExpVal::Call("g".to_string(), vec![num(1, 4), num(2, 4)]));
    let err = type_expression(&mut ctx, &mut c).unwrap_err();
    assert!(err.to_string().ends_with(
        "Ambiguous call to function 'g (::Int64, ::Int64)', cannot be resolve at runtime through dynamic dispatch"
    ));
}

#[test]
fn typing_blocks() {
    let mut ctx = empty_context();
    let mut b = Block::new(sp(1), vec![num(1, 1), string("x", 2)], true);
    assert!(type_block(&mut ctx, &mut b).is_ok());
    assert!(matches!(b.static_ty, StaticType::Str));
    let mut open = Block::new(sp(1), vec![num(1, 1)], false);
    assert!(type_block(&mut ctx, &mut open).is_ok());
    assert!(matches!(open.static_ty, StaticType::Any));
}

#[test]
fn typing_writes_scopes_and_inner_types() {
    let mut ctx = empty_context();
    ctx.push_to_env(&ident("x", 1), StaticType::Int64, Scope::Local);
    let mut e = Exp::new(sp(2), ExpVal::BinOp(BinOp::Plus, var("x", 2), num(1, 2)));
    assert!(type_expression(&mut ctx, &mut e).is_ok());
    match &*e.val {
        ExpVal::BinOp(_, a, b) => {
            assert!(matches!(a.static_ty, StaticType::Int64));
            assert!(matches!(b.static_ty, StaticType::Int64));
            match &*a.val {
                ExpVal::LValue(lv) => assert_eq!(lv.scope, Scope::Local),
                _ => panic!("the tree changed shape"),
            }
        },
        _ => panic!("the tree changed shape"),
    }
}
