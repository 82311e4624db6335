use projets2020::sim::bounds::{is_simulable, memories_fit, netlist_keeps_limits};
use projets2020::sim::build_graph::build_graph;
use projets2020::sim::netlist::{Arg, BinOpType, Def, Netlist, RamData, Value, ValueType};
use projets2020::sim::runner::Runner;
use projets2020::sim::sort_graph::sort_graph;
use projets2020::sim::testbench::check_run;

fn var(s: &str) -> Arg {
    Arg::Var(s.to_string())
}

fn netlist(inputs: &[&str], outputs: &[&str], vars: Vec<(&str, ValueType)>, defs: Vec<(&str, Def)>) -> Netlist {
    Netlist {
        inputs: inputs.iter().map(|s| s.to_string()).collect(),
        outputs: outputs.iter().map(|s| s.to_string()).collect(),
        vars: vars.into_iter().map(|(n, t)| (n.to_string(), t)).collect(),
        defs: defs.into_iter().map(|(n, d)| (n.to_string(), d)).collect(),
    }
}

#[test]
fn a_not_gate() {
    let n = netlist(&["a"], &["o"], vec![("a", ValueType::Bit), ("o", ValueType::Bit)], vec![("o", Def::Not(var("a")))]);
    let ops = sort_graph(build_graph(n).unwrap()).unwrap();
    let (mut runner, inputs, outputs) = Runner::new(&ops);
    assert_eq!(inputs.len(), 1);
    assert_eq!(inputs[0].name(), "a");
    assert_eq!(inputs[0].len(), 1);
    assert_eq!(outputs[0].name(), "o");
    runner.write(&inputs[0], &[true]);
    runner.tick().unwrap();
    assert_eq!(runner.read(&outputs[0]), vec![false]);
    runner.write(&inputs[0], &[false]);
    runner.tick().unwrap();
    assert_eq!(runner.read(&outputs[0]), vec![true]);
}

#[test]
fn gates_on_buses() {
    let n = netlist(
        &["a", "b"],
        &["o", "x"],
        vec![
            ("a", ValueType::BitArray(2)),
            ("b", ValueType::BitArray(2)),
            ("o", ValueType::BitArray(2)),
            ("x", ValueType::BitArray(4)),
        ],
        vec![("o", Def::Bin(BinOpType::Xor, var("a"), var("b"))), ("x", Def::Concat(var("a"), var("b")))],
    );
    let ops = sort_graph(build_graph(n).unwrap()).unwrap();
    let (mut runner, inputs, outputs) = Runner::new(&ops);
    runner.write(&inputs[0], &[true, false]);
    runner.write(&inputs[1], &[true, true]);
    runner.tick().unwrap();
    assert_eq!(runner.read(&outputs[0]), vec![false, true]);
    assert_eq!(runner.read(&outputs[1]), vec![true, false, true, true]);
}

#[test]
fn a_register_takes_its_source_at_the_tick() {
    let n = netlist(
        &["a"],
        &["r"],
        vec![("a", ValueType::Bit), ("r", ValueType::Bit)],
        vec![("r", Def::Reg("a".to_string()))],
    );
    let ops = sort_graph(build_graph(n).unwrap()).unwrap();
    let (mut runner, inputs, outputs) = Runner::new(&ops);
    assert_eq!(runner.read(&outputs[0]), vec![false]);
    runner.write(&inputs[0], &[true]);
    runner.tick().unwrap();
    assert_eq!(runner.read(&outputs[0]), vec![true]);
    runner.write(&inputs[0], &[false]);
    runner.tick().unwrap();
    assert_eq!(runner.read(&outputs[0]), vec![false]);
}

#[test]
fn combinational_cycles_are_refused() {
    let n = netlist(
        &[],
        &["a"],
        vec![("a", ValueType::Bit), ("b", ValueType::Bit)],
        vec![("a", Def::Not(var("b"))), ("b", Def::Not(var("a")))],
    );
    assert!(sort_graph(build_graph(n).unwrap()).is_err());
}

#[test]
fn undeclared_wires_are_refused() {
    let n = netlist(&["a"], &["o"], vec![("a", ValueType::Bit)], vec![("o", Def::Not(var("a")))]);
    assert!(build_graph(n).is_err());
}

#[test]
fn constants_and_multiplexers() {
    let n = netlist(
        &["s"],
        &["o"],
        vec![("s", ValueType::Bit), ("o", ValueType::Bit)],
        vec![("o", Def::Mux(var("s"), Arg::Const(Value::Bit(true)), Arg::Const(Value::Bit(false))))],
    );
    let ops = sort_graph(build_graph(n).unwrap()).unwrap();
    let (mut runner, inputs, outputs) = Runner::new(&ops);
    runner.write(&inputs[0], &[false]);
    runner.tick().unwrap();
    let low = runner.read(&outputs[0]);
    runner.write(&inputs[0], &[true]);
    runner.tick().unwrap();
    let high = runner.read(&outputs[0]);
    assert_ne!(low, high);
}

#[test]
fn a_ram_keeps_what_was_written() {
    let ram = RamData {
        address_size: 1,
        word_size: 1,
        read_address: Arg::Const(Value::Bit(false)),
        write_enable: var("we"),
        write_address: Arg::Const(Value::Bit(false)),
        data: var("d"),
    };
    let n = netlist(
        &["we", "d"],
        &["o"],
        vec![("we", ValueType::Bit), ("d", ValueType::Bit), ("o", ValueType::Bit)],
        vec![("o", Def::Ram(ram))],
    );
    let ops = sort_graph(build_graph(n).unwrap()).unwrap();
    let (mut runner, inputs, outputs) = Runner::new(&ops);
    runner.write(&inputs[0], &[true]);
    runner.write(&inputs[1], &[true]);
    runner.tick().unwrap();
    runner.write(&inputs[0], &[false]);
    runner.write(&inputs[1], &[false]);
    runner.tick().unwrap();
    assert_eq!(runner.read(&outputs[0]), vec![true]);
}

#[test]
fn a_test_of_a_not_gate_passes() {
    let n = netlist(&["a"], &["o"], vec![("a", ValueType::Bit), ("o", ValueType::Bit)], vec![("o", Def::Not(var("a")))]);
    let ops = sort_graph(build_graph(n).unwrap()).unwrap();
    let (ok, got) = check_run(&ops, &vec![vec![true], vec![false]], &vec![vec![true]]).unwrap();
    assert!(ok);
    assert_eq!(got, vec![vec![true]]);
    let (ok, got) = check_run(&ops, &vec![vec![true]], &vec![vec![true]]).unwrap();
    assert!(!ok);
    assert_eq!(got, vec![vec![false]]);
}

#[test]
fn a_test_with_values_missing_for_a_cycle() {
    let n = netlist(
        &["a", "b"],
        &["o"],
        vec![("a", ValueType::Bit), ("b", ValueType::Bit), ("o", ValueType::Bit)],
        vec![("o", Def::Bin(BinOpType::And, var("a"), var("b")))],
    );
    let ops = sort_graph(build_graph(n).unwrap()).unwrap();
    let e = check_run(&ops, &vec![vec![true], vec![true], vec![true]], &vec![vec![true]]).unwrap_err();
    assert_eq!(e, "Missing inputs to complete a cycle.");
    let (ok, _) = check_run(&ops, &vec![vec![true], vec![true]], &vec![vec![true]]).unwrap();
    assert!(ok);
}

#[test]
fn a_test_without_enough_expected_outputs() {
    let n = netlist(&["a"], &["o"], vec![("a", ValueType::Bit), ("o", ValueType::Bit)], vec![("o", Def::Not(var("a")))]);
    let ops = sort_graph(build_graph(n).unwrap()).unwrap();
    let e = check_run(&ops, &vec![vec![true]], &vec![]).unwrap_err();
    assert_eq!(e, "Missing output templates.");
}

fn graph_error_of(n: Netlist) -> String {
    match build_graph(n) {
        Ok(_) => panic!("the netlist was accepted"),
        Err(e) => e,
    }
}

#[test]
fn a_name_declared_twice_is_reported_first() {
    let n = netlist(&["b"], &["a"], vec![("a", ValueType::Bit), ("a", ValueType::Bit)], vec![]);
    assert_eq!(graph_error_of(n), "Variable \"a\" already declared.");
}

#[test]
fn an_undeclared_input_is_reported() {
    let n = netlist(&["b"], &["a"], vec![("a", ValueType::Bit)], vec![("a", Def::Not(var("a")))]);
    assert_eq!(graph_error_of(n), "Can't find variable b.");
}

#[test]
fn an_input_given_twice_is_defined_twice() {
    let n = netlist(&["a", "a"], &["a"], vec![("a", ValueType::Bit)], vec![]);
    assert_eq!(graph_error_of(n), "Variable a is defined twice.");
}

#[test]
fn an_undeclared_output_is_reported() {
    let n = netlist(&["a"], &["o"], vec![("a", ValueType::Bit)], vec![]);
    assert_eq!(graph_error_of(n), "Can't find variable o.");
}

#[test]
fn an_equation_on_an_input_is_defined_twice() {
    let n = netlist(&["a"], &["a"], vec![("a", ValueType::Bit)], vec![("a", Def::Not(var("a")))]);
    assert_eq!(graph_error_of(n), "Variable a is defined twice.");
}

#[test]
fn an_equation_on_an_undeclared_variable_is_reported() {
    let n = netlist(&["a"], &["a"], vec![("a", ValueType::Bit)], vec![("z", Def::Not(var("a")))]);
    assert_eq!(graph_error_of(n), "Can't find variable z.");
}

#[test]
fn a_variable_nothing_defines_is_reported() {
    let n = netlist(&["a"], &["o"], vec![("a", ValueType::Bit), ("o", ValueType::Bit)], vec![]);
    assert_eq!(graph_error_of(n), "Variable o hasn't been defined.");
}

#[test]
fn built_and_sorted_operations_can_be_simulated() {
    let n = netlist(&["a"], &["o"], vec![("a", ValueType::Bit), ("o", ValueType::Bit)], vec![("o", Def::Not(var("a")))]);
    assert!(netlist_keeps_limits(&n));
    let ops = sort_graph(build_graph(n).unwrap()).unwrap();
    assert!(memories_fit(&ops));
    assert!(is_simulable(&ops));
}

#[test]
fn a_ram_too_large_to_address_is_reported() {
    let ram = |address_size: u32| RamData {
        address_size,
        word_size: 1,
        read_address: var("a"),
        write_enable: var("a"),
        write_address: var("a"),
        data: var("a"),
    };
    let vars = || vec![("a", ValueType::Bit), ("o", ValueType::Bit)];
    let big = netlist(&["a"], &["o"], vars(), vec![("o", Def::Ram(ram(64)))]);
    assert!(!netlist_keeps_limits(&big));
    let small = netlist(&["a"], &["o"], vars(), vec![("o", Def::Ram(ram(4)))]);
    assert!(netlist_keeps_limits(&small));
}

#[test]
fn an_undeclared_argument_is_reported() {
    let n = netlist(&["a"], &["o"], vec![("a", ValueType::Bit), ("o", ValueType::Bit)], vec![("o", Def::Not(var("q")))]);
    assert_eq!(graph_error_of(n), "Can't find variable q.");
}

#[test]
fn mismatched_operands_are_reported() {
    let vars = || vec![("a", ValueType::BitArray(2)), ("o", ValueType::Bit)];
    let n = netlist(&["a"], &["o"], vars(), vec![("o", Def::Not(var("a")))]);
    assert_eq!(graph_error_of(n), "Mismatched lengths.");
    let n = netlist(&["a"], &["o"], vars(), vec![("o", Def::Mux(var("a"), var("a"), var("a")))]);
    assert_eq!(graph_error_of(n), "Mismatched lengths (expected 1).");
}

#[test]
fn bad_selections_and_slices_are_reported() {
    let n = netlist(&["a"], &["o"], vec![("a", ValueType::BitArray(2)), ("o", ValueType::Bit)], vec![("o", Def::Select(5, var("a")))]);
    assert_eq!(graph_error_of(n), "Index (5) out of bounds (length is 2).");
    let n = netlist(&["a"], &["o"], vec![("a", ValueType::BitArray(2)), ("o", ValueType::BitArray(2))], vec![("o", Def::Select(0, var("a")))]);
    assert_eq!(graph_error_of(n), "Expected the output's length to be 1");
    let n = netlist(&["a"], &["o"], vec![("a", ValueType::BitArray(2)), ("o", ValueType::Bit)], vec![("o", Def::Slice(1, 0, var("a")))]);
    assert_eq!(graph_error_of(n), "Invalid slice bounds.");
}
