use projets2020::ir::hir::{BinOp, Type};
use projets2020::ir::hir_parsing::{parse_hir, HirCallable, HirStatement, HirVal};

const PROGRAM: &str = "# a loop\nfn main(a, b) {\n    x <- a + b;\n    y <- (Int64) x;\n    z <- x[2];\n    while x {\n        x <- (1, 18446744073709551615);\n    }\n    if c {\n        s <- \"hi\\n\";\n    } else {}\n    return x\n}\nfn g() {}\n";

#[test]
fn the_high_level_reader_reads_functions() {
    let fs = match parse_hir("p.hir", PROGRAM) {
        Ok(fs) => fs,
        Err(e) => panic!("{}", e.to_string()),
    };
    assert_eq!(fs.len(), 2);
    assert_eq!(fs[0].name, "main");
    assert_eq!(fs[0].args, vec!["a".to_string(), "b".to_string()]);
    assert_eq!(fs[1].name, "g");
    assert!(fs[1].args.is_empty() && fs[1].body.is_empty());
    let b = &fs[0].body;
    assert_eq!(b.len(), 6);
    assert!(matches!(&b[0], HirStatement::Call(x, HirCallable::Bin(BinOp::Add, HirVal::Var(a), HirVal::Var(c)))
        if x == "x" && a == "a" && c == "b"));
    assert!(matches!(&b[1], HirStatement::Call(y, HirCallable::Cast(HirVal::Var(x), Type::Int64)) if y == "y" && x == "x"));
    assert!(matches!(&b[2], HirStatement::Call(z, HirCallable::Access(HirVal::Var(x), 2)) if z == "z" && x == "x"));
    match &b[3] {
        HirStatement::While(HirVal::Var(c), body) => {
            assert_eq!(c, "x");
            assert!(matches!(&body[0], HirStatement::Call(_, HirCallable::Assign(HirVal::Const(1, u64::MAX)))));
        },
        _ => panic!("expected a loop"),
    }
    match &b[4] {
        HirStatement::If(HirVal::Var(c), yes, no) => {
            assert_eq!(c, "c");
            assert!(matches!(&yes[0], HirStatement::Call(_, HirCallable::Assign(HirVal::Str(s))) if s == "hi\n"));
            assert!(no.is_empty());
        },
        _ => panic!("expected a test"),
    }
    assert!(matches!(&b[5], HirStatement::Return(HirVal::Var(x)) if x == "x"));
}

#[test]
fn an_empty_high_level_text_is_no_program() {
    let e = parse_hir("p.hir", "  \n").err().unwrap();
    assert!(e.to_string().ends_with("Expected a program"));
}

#[test]
fn the_high_level_reader_reports_the_first_unexpected_token() {
    let e = parse_hir("p.hir", "fn f() { x <- a b; }").err().unwrap();
    assert_eq!(e.span().start, (16, 1, 17));
    assert!(e.to_string().ends_with("Unexpected token."));
    let e = parse_hir("p.hir", "fn f() { if a { } }").err().unwrap();
    assert_eq!(e.span().start, (18, 1, 19));
}

#[test]
fn the_high_level_reader_reports_foreign_characters_and_large_numbers() {
    let e = parse_hir("p.hir", "fn f() { x <- $; }").err().unwrap();
    assert!(e.to_string().ends_with("Unrecognized token at {}."));
    let e = parse_hir("p.hir", "fn f() { x <- (1, 18446744073709551616); }").err().unwrap();
    assert!(e.to_string().ends_with("This number does not fit in 64 bits."));
}

#[test]
fn keywords_of_the_low_level_language_are_names_here() {
    let fs = parse_hir("p.hir", "fn globals(vars) { native <- vars; }").ok().unwrap();
    assert_eq!(fs[0].name, "globals");
    assert!(matches!(&fs[0].body[0], HirStatement::Call(n, HirCallable::Assign(HirVal::Var(v))) if n == "native" && v == "vars"));
}
