use projets2020::sim::build_graph::build_graph;
use projets2020::sim::frames::read_bits_sequence;
use projets2020::sim::netlist::{Arg, Def, Value, ValueType};
use projets2020::sim::parsing::{lex_netlist, parse_netlist, read_netlist, Lexeme};
use projets2020::sim::runner::Runner;
use projets2020::sim::sort_graph::sort_graph;

#[test]
fn a_small_netlist() {
    let text = "# a not gate\nINPUT a\nOUTPUT o\nVAR a, o : 3\nIN\no = NOT a\n";
    let n = parse_netlist("n.net", text).unwrap();
    assert_eq!(n.inputs, vec!["a".to_string()]);
    assert_eq!(n.outputs, vec!["o".to_string()]);
    assert_eq!(n.vars.len(), 2);
    assert!(matches!(n.vars[0].1, ValueType::Bit));
    assert!(matches!(n.vars[1].1, ValueType::BitArray(3)));
    assert_eq!(n.defs.len(), 1);
    assert_eq!(n.defs[0].0, "o");
    assert!(matches!(&n.defs[0].1, Def::Not(Arg::Var(v)) if v == "a"));
}

#[test]
fn an_empty_netlist() {
    let n = parse_netlist("n.net", "INPUT OUTPUT VAR IN").unwrap();
    assert!(n.inputs.is_empty() && n.outputs.is_empty() && n.vars.is_empty() && n.defs.is_empty());
}

#[test]
fn constants_in_netlists() {
    let n = parse_netlist("n.net", "INPUT OUTPUT o VAR o:2 IN o = CONCAT 1 0110").unwrap();
    match &n.defs[0].1 {
        Def::Concat(Arg::Const(Value::Bit(true)), Arg::Const(Value::BitArray(v))) => {
            assert_eq!(v, &vec![false, true, true, false]);
        },
        _ => panic!("unexpected definition"),
    }
}

#[test]
fn zero_length_buses_are_refused() {
    let e = parse_netlist("n.net", "INPUT a OUTPUT o VAR a:0, o IN").unwrap_err();
    // the error stands on the token read after the length
    assert_eq!(e.span().start, (24, 1, 25));
    assert!(e.to_string().ends_with("Illegal length (0) for a bit array."));
}

#[test]
fn constants_are_binary() {
    let e = parse_netlist("n.net", "INPUT OUTPUT o VAR o IN o = 12").unwrap_err();
    assert_eq!(e.span().start, (28, 1, 29));
    assert!(e.to_string().ends_with("Expected a list of '1's and '0's"));
}

#[test]
fn unexpected_tokens() {
    let e = parse_netlist("n.net", "OUTPUT o").unwrap_err();
    assert_eq!(e.span().start, (0, 1, 1));
    assert_eq!(e.to_string(), "File n.net, line 1, characters 1-6:\nUnexpected token.");
    let e = parse_netlist("n.net", "INPUT a b").unwrap_err();
    assert_eq!(e.span().start, (8, 1, 9));
    let e = parse_netlist("n.net", "").unwrap_err();
    assert!(e.to_string().ends_with("Unexpected token."));
}

#[test]
fn slice_bounds_must_fit() {
    let e = parse_netlist("n.net", "INPUT OUTPUT o VAR o IN o = SLICE 0 99999999999 x").unwrap_err();
    assert!(e.to_string().ends_with("Number too big."));
}

#[test]
fn the_reader_gives_up_on_foreign_tokens() {
    assert!(read_netlist("n.net", "INPUT a + b").is_none());
    assert!(read_netlist("n.net", "INPUT a OUTPUT o VAR a:99999999999 , o IN").is_none());
    // an error met before such a token is still reported
    assert!(matches!(read_netlist("n.net", "OUTPUT +"), Some(Err(_))));
}

#[test]
fn tokens_and_their_regions() {
    let (ts, bad) = lex_netlist("IN x:10\n");
    assert!(!bad);
    assert_eq!(ts.len(), 5);
    assert!(matches!(ts[0].0, Lexeme::In));
    assert!(matches!(&ts[1].0, Lexeme::Ident(s) if s == "x"));
    assert!(matches!(ts[2].0, Lexeme::Colon));
    assert!(matches!(&ts[3].0, Lexeme::Uint(s) if s == "10"));
    assert_eq!((ts[3].1, ts[3].2), ((5, 1, 6), (6, 1, 7)));
    // the end takes the region of the last thing read: here the new line
    assert!(matches!(ts[4].0, Lexeme::Eof));
    assert_eq!((ts[4].1, ts[4].2), ((7, 1, 8), (7, 1, 8)));
    let (_, bad) = lex_netlist("# no end of line");
    assert!(bad);
}

#[test]
fn read_then_simulate() {
    let text = "INPUT a, b\nOUTPUT c\nVAR a, b, c\nIN\nc = AND a b\n";
    let n = parse_netlist("and.net", text).unwrap();
    let ops = sort_graph(build_graph(n).unwrap()).unwrap();
    let (mut runner, inputs, outputs) = Runner::new(&ops);
    runner.write(&inputs[0], &[true]);
    runner.write(&inputs[1], &[true]);
    runner.tick().unwrap();
    assert_eq!(runner.read(&outputs[0]), vec![true]);
    runner.write(&inputs[1], &[false]);
    runner.tick().unwrap();
    assert_eq!(runner.read(&outputs[0]), vec![false]);
}

#[test]
fn frames_of_a_test_file() {
    let f = read_bits_sequence("01\n1\n\n;\n10\n;\n111").unwrap();
    assert_eq!(f, vec![vec![vec![false, true], vec![true]], vec![vec![true, false]]]);
    assert_eq!(read_bits_sequence("").unwrap(), Vec::<Vec<Vec<bool>>>::new());
    assert_eq!(read_bits_sequence("01x;").unwrap_err(), "Unexpected character in input.");
}
