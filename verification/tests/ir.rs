use projets2020::automata::line_counter::Span;
use projets2020::parser::ast::{BinOp, Block, Else, ElseVal, Exp, ExpVal, LValue, LocatedIdent, Range, UnaryOp};
use projets2020::parser::ast_debug::exp_text;
use projets2020::ir::hir;
use projets2020::ir::hir_to_lir::hir_to_lir;
use projets2020::ir::lir;
use projets2020::ir::lir_to_asm::lir_to_asm;
use projets2020::ir::lir_parsing::{lex_lir, parse_lir, LLexeme};

fn lir_fn(name: &str, stmts: Vec<lir::Statement>) -> lir::Function {
    lir::Function::new(name.to_string(), vec![], vec![], lir::Block::new(stmts))
}

#[test]
fn smallest_program_in_assembly() {
    let src = lir::Source::new(vec![], vec![lir_fn("main", vec![])]);
    let out = lir_to_asm(&src).unwrap();
    let expected = "\t.text\n\t.globl main\nmain:\n\tcall fn_0\n\tmovq $0, %rax\n\tret\n\
fn_0:\n\tpushq %rbp\n\tmovq %rsp, %rbp\n\tsubq $0, %rsp\n\tmovq $0, %rax\n\tmovq $0, %rdx\n\
fn_0_exit:\n\taddq $0, %rsp\n\tpopq %rbp\n\tret\n\t.data\n";
    assert_eq!(out, expected);
}

#[test]
fn assembly_needs_a_main_function() {
    let src = lir::Source::new(vec![], vec![lir_fn("f", vec![])]);
    assert_eq!(lir_to_asm(&src).unwrap_err(), "[LIR] No \"main\" function !");
}

#[test]
fn functions_are_defined_once() {
    let src = lir::Source::new(vec![], vec![lir_fn("main", vec![]), lir_fn("f", vec![]), lir_fn("f", vec![])]);
    assert_eq!(lir_to_asm(&src).unwrap_err(), "[LIR] Function \"f\" is not uniquely defined.");
}

#[test]
fn strings_go_to_the_data_section() {
    let body = vec![lir::Statement::Inst(lir::Instruction::Mov("x".to_string(), lir::Val::Str("hi\n".to_string())))];
    let f = lir::Function::new("main".to_string(), vec![], vec!["x".to_string()], lir::Block::new(body));
    let out = lir_to_asm(&lir::Source::new(vec![], vec![f])).unwrap();
    assert!(out.ends_with("\t.data\nstring_0:\n\t.string \"hi\\n\"\n"));
}

#[test]
fn undeclared_variables_are_refused() {
    let body = vec![lir::Statement::Inst(lir::Instruction::Mov("y".to_string(), lir::Val::Const(1)))];
    let src = lir::Source::new(vec![], vec![lir_fn("main", body)]);
    assert!(lir_to_asm(&src).is_err());
}

#[test]
fn lowering_needs_a_main_function() {
    let f = hir::Function::new("f".to_string(), vec![], vec![], hir::Block::new(vec![hir::Statement::Return(hir::Val::Nothing)]));
    let src = hir::Source::new(vec![], "f".to_string(), vec![hir::Decl::Function(f)]);
    assert_eq!(hir_to_lir(&src).err().unwrap(), "No \"main\" function");
}

#[test]
fn lowering_adds_an_entry_point() {
    let f = hir::Function::new("main".to_string(), vec![], vec![], hir::Block::new(vec![hir::Statement::Return(hir::Val::Nothing)]));
    let src = hir::Source::new(vec![], "main".to_string(), vec![hir::Decl::Function(f)]);
    let low = hir_to_lir(&src).unwrap();
    assert_eq!(low.functions.len(), 2);
    assert_eq!(low.functions[1].name, "main");
    assert_eq!(low.functions[1].vars, vec!["ret_code_ty".to_string(), "ret_code_val".to_string()]);
    assert_ne!(low.functions[0].name, "main");
    // and the result can be assembled
    let out = lir_to_asm(&low).unwrap();
    assert!(out.starts_with("\t.text\n\t.globl main\nmain:\n\tcall fn_1\n"));
}

fn read_ok(text: &str) -> lir::Source {
    match parse_lir("p.lir", text) {
        Ok(s) => s,
        Err(e) => panic!("{}", e.to_string()),
    }
}

#[test]
fn a_program_of_the_low_level_language() {
    let text = "globals: g;\n# a comment\nfn main() vars: x, a, b; {\n  x <- 1;\n  l:\n  jumpif ! x l;\n  (a, b) <- call native f(x, \"s\\n\");\n  return a, b;\n}\n";
    let src = read_ok(text);
    assert_eq!(src.globals, vec!["g".to_string()]);
    assert_eq!(src.functions.len(), 1);
    let f = &src.functions[0];
    assert_eq!(f.name, "main");
    assert!(f.args.is_empty());
    assert_eq!(f.vars, vec!["x".to_string(), "a".to_string(), "b".to_string()]);
    let stmts = &f.body.stmts;
    assert_eq!(stmts.len(), 5);
    assert!(matches!(&stmts[0], lir::Statement::Inst(lir::Instruction::Mov(d, lir::Val::Const(1))) if d == "x"));
    assert!(matches!(&stmts[1], lir::Statement::Label(l) if l.name == "l"));
    assert!(matches!(&stmts[2], lir::Statement::Inst(lir::Instruction::JumpifNot(lir::Val::Var(v), l)) if v == "x" && l.name == "l"));
    match &stmts[3] {
        lir::Statement::Inst(lir::Instruction::Call(Some((d1, d2)), native, name, args)) => {
            assert_eq!((d1.as_str(), d2.as_str(), *native, name.as_str()), ("a", "b", true, "f"));
            assert_eq!(args.len(), 2);
            assert!(matches!(&args[1], lir::Val::Str(s) if s == "s\n"));
        }
        _ => panic!("a call was expected"),
    }
    assert!(matches!(&stmts[4], lir::Statement::Inst(lir::Instruction::Return(lir::Val::Var(a), lir::Val::Var(b))) if a == "a" && b == "b"));
}

#[test]
fn operators_of_the_low_level_language() {
    let src = read_ok("globals: ;\nfn f(p, q) vars: ; {\n  p <- p + q;\n  q <- - p;\n  p <- q[2];\n  q[3] <- 7;\n  call g();\n}\n");
    assert!(src.globals.is_empty());
    let f = &src.functions[0];
    assert_eq!(f.args, vec!["p".to_string(), "q".to_string()]);
    let stmts = &f.body.stmts;
    assert!(matches!(&stmts[0], lir::Statement::Inst(lir::Instruction::Bin(d, lir::BinOp::Add, _, _)) if d == "p"));
    assert!(matches!(&stmts[1], lir::Statement::Inst(lir::Instruction::Unary(d, lir::UnaryOp::Neg, _)) if d == "q"));
    assert!(matches!(&stmts[2], lir::Statement::Inst(lir::Instruction::Access(d, _, 2)) if d == "p"));
    assert!(matches!(&stmts[3], lir::Statement::Inst(lir::Instruction::AssignArray(_, 3, lir::Val::Const(7)))));
    assert!(matches!(&stmts[4], lir::Statement::Inst(lir::Instruction::Call(None, false, g, a)) if g == "g" && a.is_empty()));
}

#[test]
fn an_empty_text_is_no_program() {
    let e = parse_lir("p.lir", "").err().unwrap();
    assert!(e.to_string().ends_with("Expected a program"));
}

#[test]
fn the_low_level_reader_reports_the_first_unexpected_token() {
    let e = parse_lir("p.lir", "globals g").err().unwrap();
    assert_eq!(e.span().start, (8, 1, 9));
    assert!(e.to_string().ends_with("Unexpected token."));
}

#[test]
fn the_low_level_reader_reports_foreign_characters() {
    let e = parse_lir("p.lir", "globals: ; $").err().unwrap();
    assert_eq!(e.span().start, (11, 1, 12));
    assert_eq!(e.span().end, (11, 1, 12));
    assert!(e.to_string().ends_with("Unrecognized token at {}."));
    assert!(parse_lir("p.lir", "globals: x;").is_ok());
}

#[test]
fn the_low_level_reader_reports_numbers_too_large() {
    let e = parse_lir("p.lir", "globals: ;\nfn f() vars: ; {\n x <- 99999999999999999999;\n}\n").err().unwrap();
    assert!(e.to_string().ends_with("This number does not fit in 64 bits."));
    assert_eq!(e.span().start.1, 3);
}

#[test]
fn a_syntax_error_before_a_foreign_character_comes_first() {
    let e = parse_lir("p.lir", "globals g $").err().unwrap();
    assert!(e.to_string().ends_with("Unexpected token."));
}

#[test]
fn a_string_cut_short_is_reported_up_to_its_end() {
    let e = parse_lir("p.lir", "globals: ;\nfn f() vars: ; {\n x <- \"ab").err().unwrap();
    assert!(e.to_string().ends_with("Unrecognized token at {}."));
    assert_eq!(e.span().start.1, 3);
    assert_eq!(e.span().end.2, 9);
}

#[test]
fn a_program_read_then_compiled() {
    let src = read_ok("globals: ;\nfn main() vars: ; {\n}\n");
    let out = lir_to_asm(&src).unwrap();
    assert!(out.starts_with("\t.text\n\t.globl main\nmain:\n"));
}

#[test]
fn tokens_of_the_low_level_language() {
    let (ts, bad) = lex_lir("fn x <- 12");
    assert!(bad.is_none());
    assert!(matches!(ts[0].0, LLexeme::Fn));
    assert!(matches!(&ts[1].0, LLexeme::Ident(s) if s == "x"));
    assert!(matches!(ts[2].0, LLexeme::Arrow));
    assert!(matches!(ts[3].0, LLexeme::Num(12)));
    assert_eq!(ts[3].1, (8, 1, 9));
}

#[test]
fn expressions_are_written_as_debug_formatting_writes_them() {
    let sp = Span { file: "f\"q", start: (0, 1, 1), end: (2, 1, 3) };
    let e = Exp::new(sp, ExpVal::Int(-7));
    assert_eq!(
        exp_text(&e),
        "Exp { span: Span { file: \"f\\\"q\", start: (0, 1, 1), end: (2, 1, 3) }, val: Int(-7), static_ty: Any }"
    );
    let lv = LValue::new(sp, Some(Exp::new(sp, ExpVal::Str("a\nb".to_string()))), "fld".to_string());
    let call = Exp::new(sp, ExpVal::Call("g".to_string(), vec![Exp::new(sp, ExpVal::Bool(true)), Exp::new(sp, ExpVal::LValue(lv))]));
    let blk = Block::new(sp, vec![call, Exp::new(sp, ExpVal::Mul(3, "x".to_string()))], true);
    let els = Else::new(sp, ElseVal::ElseIf(Exp::new(sp, ExpVal::Int(i64::MIN)), Block::new(sp, vec![], false), Else::new(sp, ElseVal::End)));
    let cond = Exp::new(sp, ExpVal::UnaryOp(UnaryOp::Not, Exp::new(sp, ExpVal::Bool(false))));
    let iff = Exp::new(sp, ExpVal::If(cond, blk, els));
    let range = Range::new(sp, Exp::new(sp, ExpVal::Int(0)), Exp::new(sp, ExpVal::BinOp(BinOp::Pow, Exp::new(sp, ExpVal::Int(2)), Exp::new(sp, ExpVal::Int(3)))));
    let body = Block::new(sp, vec![iff, Exp::new(sp, ExpVal::Return(None))], false);
    let e = Exp::new(sp, ExpVal::For(LocatedIdent::new(sp, "i".to_string()), range, body));
    assert_eq!(exp_text(&e), format!("{:?}", e));
}

#[test]
fn a_printed_low_level_program_reads_back() {
    let text = "globals: g;\nfn main() vars: x, y; {\nl:\n\tx <- 1 + y;\n\ty <- -x;\n\tx[2] <- \"a\\\"b\";\n\ty <- x[0];\n\tjumpif !x l;\n\t(x, y) <- call native print(x, \"s\");\n\treturn x, 0;\n}\n";
    let src = parse_lir("p.lir", text).ok().unwrap();
    let printed = src.to_text();
    assert_eq!(printed, text);
    let again = parse_lir("p.lir", &printed).ok().unwrap();
    assert_eq!(again.to_text(), printed);
    assert!(projets2020::ir::lir_to_asm::source_fits_check(&src));
}

#[test]
fn a_jump_to_a_missing_label_does_not_fit() {
    let src = parse_lir("p.lir", "globals: ;\nfn main() vars: ; {\n\tjump nowhere;\n}\n").ok().unwrap();
    assert!(!projets2020::ir::lir_to_asm::source_fits_check(&src));
    let src = parse_lir("p.lir", "globals: ;\nfn main() vars: ; {\nhere:\n\tjump here;\n}\n").ok().unwrap();
    assert!(projets2020::ir::lir_to_asm::source_fits_check(&src));
}
