use vstd::prelude::*;

use crate::text::{cat3, decimal, owned, str_eq, u64_to_decimal};
use super::sort_graph::{dep_graph, deps_in_range};
use super::netlist::{Arg, BinOpType, Def, Netlist, RamData, Value, ValueType, value_type_len};
use super::types::{
    BinOp, MemInfo, MemOp, OpArg, OpArgView, OpsGraph, PartialVarInfo, RamOp, RegOp, RomOp, VarDef,
    VarInfo,
};

verus! {

// ---------------------------------------------------------------------
// The model of a netlist: names, lengths and addresses of its variables.
// ---------------------------------------------------------------------

/// The name of the `i`-th declared variable.
pub open spec fn name_at(n: &Netlist, i: int) -> Seq<char> {
    n.vars@[i].0@
}

/// The number of wires of the `i`-th declared variable.
pub open spec fn len_at(n: &Netlist, i: int) -> nat {
    value_type_len(n.vars@[i].1)
}

/// The address of the `i`-th variable: variables are laid out side by
/// side in declaration order.
pub open spec fn addr_at(n: &Netlist, i: int) -> nat
    decreases i,
{
    if i <= 0 {
        0
    } else {
        addr_at(n, i - 1) + len_at(n, i - 1)
    }
}

/// The total number of wires of the netlist.
pub open spec fn total_len(n: &Netlist) -> nat {
    addr_at(n, n.vars@.len() as int)
}

/// No two variables share a name.
pub open spec fn names_distinct(n: &Netlist) -> bool {
    forall|i: int, j: int|
        0 <= i < j < n.vars@.len() ==> name_at(n, i) != name_at(n, j)
}

/// The index of the first variable with the given name.
#[verifier::opaque]
pub open spec fn lookup(n: &Netlist, name: Seq<char>) -> Option<int> {
    if exists|i: int| 0 <= i < n.vars@.len() && name_at(n, i) == name {
        Some(
            choose|i: int|
                0 <= i < n.vars@.len() && name_at(n, i) == name && forall|j: int|
                    0 <= j < i ==> name_at(n, j) != name,
        )
    } else {
        None
    }
}

/// `2^k`.
pub open spec fn two_pow(k: nat) -> nat
    decreases k,
{
    if k == 0 {
        1
    } else {
        2 * two_pow((k - 1) as nat)
    }
}

/// The length of an operand, when its variable exists.
pub open spec fn arg_len(n: &Netlist, a: Arg) -> Option<nat> {
    match a {
        Arg::Const(Value::Bit(_)) => Some(1),
        Arg::Const(Value::BitArray(v)) => Some(v@.len()),
        Arg::Var(name) => match lookup(n, name@) {
            Some(i) => Some(len_at(n, i)),
            None => None,
        },
    }
}

/// The variable an operand reads, if any.
pub open spec fn arg_dep(n: &Netlist, a: Arg) -> Seq<usize> {
    match a {
        Arg::Var(name) => match lookup(n, name@) {
            Some(i) => seq![i as usize],
            None => seq![],
        },
        _ => seq![],
    }
}

/// The simulated operand an operand stands for.
pub open spec fn arg_op(n: &Netlist, a: Arg) -> OpArgView {
    match a {
        Arg::Const(Value::Bit(b)) => OpArgView::Cst(seq![b]),
        Arg::Const(Value::BitArray(v)) => OpArgView::Cst(v@),
        Arg::Var(name) => OpArgView::Var(addr_at(n, lookup(n, name@).unwrap()) as usize),
    }
}

/// Whether an operand exists and has the given length.
pub open spec fn arg_has_len(n: &Netlist, a: Arg, len: nat) -> bool {
    arg_len(n, a) == Some(len)
}

/// Whether the equation `def` may define a variable of `len` wires.
#[verifier::opaque]
pub open spec fn def_ok(n: &Netlist, len: nat, def: Def) -> bool {
    match def {
        Def::Fwd(a) => arg_has_len(n, a, len),
        Def::Not(a) => arg_has_len(n, a, len),
        Def::Bin(_, l, r) => arg_has_len(n, l, len) && arg_has_len(n, r, len),
        Def::Mux(s, l, r) => arg_has_len(n, s, 1) && arg_has_len(n, l, 1) && arg_has_len(n, r, 1),
        Def::Reg(src) => match lookup(n, src@) {
            Some(i) => len_at(n, i) == len,
            None => false,
        },
        Def::Ram(d) => {
            &&& arg_has_len(n, d.read_address, d.address_size as nat)
            &&& arg_len(n, d.write_enable) == Some(1nat)
            &&& arg_has_len(n, d.write_address, d.address_size as nat)
            &&& arg_has_len(n, d.data, d.word_size as nat)
            &&& d.word_size == len
        },
        Def::Rom(d) => {
            &&& arg_has_len(n, d.read_address, d.address_size as nat)
            &&& d.word_size == len
        },
        Def::Select(index, src) => match arg_len(n, src) {
            Some(l) => index < l && len == 1,
            None => false,
        },
        Def::Slice(start, end, src) => match arg_len(n, src) {
            Some(l) => start <= end && end < l && len == end - start + 1,
            None => false,
        },
        Def::Concat(l, r) => match (arg_len(n, l), arg_len(n, r)) {
            (Some(a), Some(b)) => len == a + b,
            _ => false,
        },
    }
}

/// The mathematical value of a variable definition.
pub enum VarDefView {
    Input,
    Fwd(u32, OpArgView),
    Not(u32, OpArgView),
    BinOp(BinOp, u32, OpArgView, OpArgView),
    Mux(OpArgView, OpArgView, OpArgView),
    Mem,
    Select(u32, OpArgView),
    Slice(u32, u32, OpArgView),
    Concat(u32, OpArgView, u32, OpArgView),
}

impl View for VarDef {
    type V = VarDefView;

    open spec fn view(&self) -> VarDefView {
        match self {
            VarDef::Input => VarDefView::Input,
            VarDef::Fwd(l, a) => VarDefView::Fwd(*l, a@),
            VarDef::Not(l, a) => VarDefView::Not(*l, a@),
            VarDef::BinOp(op, l, a, b) => VarDefView::BinOp(*op, *l, a@, b@),
            VarDef::Mux(s, a, b) => VarDefView::Mux(s@, a@, b@),
            VarDef::Mem => VarDefView::Mem,
            VarDef::Select(i, a) => VarDefView::Select(*i, a@),
            VarDef::Slice(s, e, a) => VarDefView::Slice(*s, *e, a@),
            VarDef::Concat(l1, a, l2, b) => VarDefView::Concat(*l1, a@, *l2, b@),
        }
    }
}

/// The mathematical value of a memory operation.
pub enum MemOpView {
    Reg(u32, usize, usize),
    Ram(usize, u32, u32, OpArgView, OpArgView, OpArgView, OpArgView, usize),
    Rom(usize, u32, u32, OpArgView, usize),
}

impl View for MemOp {
    type V = MemOpView;

    open spec fn view(&self) -> MemOpView {
        match self {
            MemOp::Reg(r) => MemOpView::Reg(r.data_len, r.input, r.output),
            MemOp::Ram(r) => MemOpView::Ram(
                r.mem_id,
                r.address_size,
                r.word_size,
                r.read_address@,
                r.write_enable@,
                r.write_address@,
                r.data@,
                r.output,
            ),
            MemOp::Rom(r) => MemOpView::Rom(r.mem_id, r.address_size, r.word_size, r.read_address@, r.output),
        }
    }
}

pub open spec fn bin_op_of(t: BinOpType) -> BinOp {
    match t {
        BinOpType::Or => BinOp::Or,
        BinOpType::Xor => BinOp::Xor,
        BinOpType::And => BinOp::And,
        BinOpType::Nand => BinOp::Nand,
    }
}

/// The definition that a (valid) equation gives to a variable of `len` wires.
#[verifier::opaque]
pub open spec fn def_view(n: &Netlist, len: nat, def: Def) -> VarDefView {
    match def {
        Def::Fwd(a) => VarDefView::Fwd(len as u32, arg_op(n, a)),
        Def::Not(a) => VarDefView::Not(len as u32, arg_op(n, a)),
        Def::Bin(t, l, r) => VarDefView::BinOp(bin_op_of(t), len as u32, arg_op(n, l), arg_op(n, r)),
        Def::Mux(s, l, r) => VarDefView::Mux(arg_op(n, s), arg_op(n, l), arg_op(n, r)),
        Def::Reg(_) | Def::Ram(_) | Def::Rom(_) => VarDefView::Mem,
        Def::Select(i, src) => VarDefView::Select(i, arg_op(n, src)),
        Def::Slice(s, e, src) => VarDefView::Slice(s, e, arg_op(n, src)),
        Def::Concat(l, r) => VarDefView::Concat(
            arg_len(n, l).unwrap() as u32,
            arg_op(n, l),
            arg_len(n, r).unwrap() as u32,
            arg_op(n, r),
        ),
    }
}

/// The variables an equation depends on within a tick.
#[verifier::opaque]
pub open spec fn def_deps(n: &Netlist, def: Def) -> Seq<usize> {
    match def {
        Def::Fwd(a) => arg_dep(n, a),
        Def::Not(a) => arg_dep(n, a),
        Def::Bin(_, l, r) => arg_dep(n, l) + arg_dep(n, r),
        Def::Mux(s, l, r) => arg_dep(n, s) + arg_dep(n, l) + arg_dep(n, r),
        Def::Select(_, src) => arg_dep(n, src),
        Def::Slice(_, _, src) => arg_dep(n, src),
        Def::Concat(l, r) => arg_dep(n, l) + arg_dep(n, r),
        _ => seq![],
    }
}

/// The length recorded for a variable defined by a (valid) equation.
pub open spec fn def_len(len: nat, def: Def) -> nat {
    match def {
        Def::Mux(_, _, _) => 1,
        _ => len,
    }
}

/// Whether an equation is a RAM or a ROM.
pub open spec fn is_aux_mem(def: Def) -> bool {
    def is Ram || def is Rom
}

/// The number of RAMs and ROMs among the first `k` equations.
pub open spec fn mems_before(n: &Netlist, k: int) -> nat
    decreases k,
{
    if k <= 0 {
        0
    } else {
        mems_before(n, k - 1) + if is_aux_mem(n.defs@[k - 1].1) {
            1nat
        } else {
            0nat
        }
    }
}

/// The number of memory operations among the first `k` equations.
pub open spec fn mem_ops_before(n: &Netlist, k: int) -> nat
    decreases k,
{
    if k <= 0 {
        0
    } else {
        mem_ops_before(n, k - 1) + if is_mem_op(n.defs@[k - 1].1) {
            1nat
        } else {
            0nat
        }
    }
}

/// The memory operation that equation `def` gives to a variable of
/// `len` wires at address `out`, its memory (if any) being `mem_id`.
#[verifier::opaque]
pub open spec fn mem_op_view(n: &Netlist, def: Def, mem_id: nat, len: nat, out: nat) -> MemOpView {
    match def {
        Def::Reg(src) => MemOpView::Reg(len as u32, addr_at(n, lookup(n, src@).unwrap()) as usize, out as usize),
        Def::Ram(d) => MemOpView::Ram(
            mem_id as usize,
            d.address_size,
            d.word_size,
            arg_op(n, d.read_address),
            arg_op(n, d.write_enable),
            arg_op(n, d.write_address),
            arg_op(n, d.data),
            out as usize,
        ),
        Def::Rom(d) => MemOpView::Rom(
            mem_id as usize,
            d.address_size,
            d.word_size,
            arg_op(n, d.read_address),
            out as usize,
        ),
        _ => MemOpView::Reg(0, 0, 0),
    }
}

/// The memory operation of the `k`-th equation, which defines the
/// variable at `out`.
pub open spec fn mem_op_of(n: &Netlist, k: int, len: nat, out: nat) -> MemOpView {
    mem_op_view(n, n.defs@[k].1, mems_before(n, k), len, out)
}

/// Whether an equation is a memory operation.
pub open spec fn is_mem_op(def: Def) -> bool {
    def is Reg || is_aux_mem(def)
}

/// How many inputs name the given variable.
pub open spec fn input_count(n: &Netlist, name: Seq<char>, k: int) -> nat
    decreases k,
{
    if k <= 0 {
        0
    } else {
        input_count(n, name, k - 1) + if n.inputs@[k - 1]@ == name {
            1nat
        } else {
            0nat
        }
    }
}

/// How many of the first `k` equations define the given variable.
pub open spec fn def_count(n: &Netlist, name: Seq<char>, k: int) -> nat
    decreases k,
{
    if k <= 0 {
        0
    } else {
        def_count(n, name, k - 1) + if n.defs@[k - 1].0@ == name {
            1nat
        } else {
            0nat
        }
    }
}

/// The index of the equation that defines the given variable.
pub open spec fn def_index(n: &Netlist, name: Seq<char>) -> int {
    choose|k: int| 0 <= k < n.defs@.len() && n.defs@[k].0@ == name
}

/// A netlist is valid when its variables have distinct names, every name
/// it uses is declared, every variable is defined exactly once (by being
/// an input or by one equation), and every equation is well-typed.
pub open spec fn netlist_valid(n: &Netlist) -> bool {
    &&& names_distinct(n)
    &&& forall|k: int| 0 <= k < n.inputs@.len() ==> lookup(n, #[trigger] n.inputs@[k]@) is Some
    &&& forall|k: int| 0 <= k < n.outputs@.len() ==> lookup(n, #[trigger] n.outputs@[k]@) is Some
    &&& forall|k: int|
        0 <= k < n.defs@.len() ==> match lookup(n, #[trigger] n.defs@[k].0@) {
            Some(i) => def_ok(n, len_at(n, i), n.defs@[k].1),
            None => false,
        }
    &&& forall|i: int|
        0 <= i < n.vars@.len() ==> input_count(n, name_at(n, i), n.inputs@.len() as int) + def_count(
            n,
            name_at(n, i),
            n.defs@.len() as int,
        ) == 1
}

/// The `i`-th variable repeats the name of one declared before it.
pub open spec fn declared_before(n: &Netlist, i: int) -> bool {
    exists|j: int| 0 <= j < i && name_at(n, j) == name_at(n, i)
}

/// The error for a name declared twice.
pub open spec fn redeclared_message(x: Seq<char>) -> Seq<char> {
    "Variable \""@ + x + "\" already declared."@
}

/// The error for a name that is not declared.
pub open spec fn missing_message(x: Seq<char>) -> Seq<char> {
    "Can't find variable "@ + x + "."@
}

/// The error for a variable defined twice.
pub open spec fn twice_message(x: Seq<char>) -> Seq<char> {
    "Variable "@ + x + " is defined twice."@
}

/// The error for a variable that nothing defines.
pub open spec fn undefined_message(x: Seq<char>) -> Seq<char> {
    "Variable "@ + x + " hasn't been defined."@
}

/// The `k`-th input names no variable, or one that an input before it
/// names.
pub open spec fn input_refused(n: &Netlist, k: int) -> bool {
    lookup(n, n.inputs@[k]@) is None || input_count(n, n.inputs@[k]@, k) > 0
}

/// The error for the `k`-th input.
pub open spec fn input_message(n: &Netlist, k: int) -> Seq<char> {
    if lookup(n, n.inputs@[k]@) is None {
        missing_message(n.inputs@[k]@)
    } else {
        twice_message(n.inputs@[k]@)
    }
}

/// The `k`-th equation defines no declared variable, or one that an input
/// or an equation before it defines.
pub open spec fn target_refused(n: &Netlist, k: int) -> bool {
    lookup(n, n.defs@[k].0@) is None || input_count(n, n.defs@[k].0@, n.inputs@.len() as int) + def_count(
        n,
        n.defs@[k].0@,
        k,
    ) > 0
}

/// The error for the target of the `k`-th equation.
pub open spec fn target_message(n: &Netlist, k: int) -> Seq<char> {
    if lookup(n, n.defs@[k].0@) is None {
        missing_message(n.defs@[k].0@)
    } else {
        twice_message(n.defs@[k].0@)
    }
}

/// The error for the `k`-th equation where it is refused: that of its
/// target, or else that of its right side.
pub open spec fn refusal_message(n: &Netlist, k: int) -> Seq<char> {
    if target_refused(n, k) {
        target_message(n, k)
    } else {
        def_message(n, len_at(n, lookup(n, n.defs@[k].0@).unwrap()), n.defs@[k].1)
    }
}

/// The `k`-th equation is refused: by its target, or because its right
/// side does not fit the variable.
pub open spec fn def_refused(n: &Netlist, k: int) -> bool {
    target_refused(n, k) || !def_ok(n, len_at(n, lookup(n, n.defs@[k].0@).unwrap()), n.defs@[k].1)
}

/// The error that the checks give, in their order: the first name declared
/// twice; else the first input refused; else the first output not
/// declared; else the first equation refused, with the error of its target
/// or else of its right side; else the first variable that nothing defines.
pub open spec fn graph_error(n: &Netlist, m: Seq<char>) -> bool {
    let nv = n.vars@.len() as int;
    let ni = n.inputs@.len() as int;
    let no = n.outputs@.len() as int;
    let nd = n.defs@.len() as int;
    if exists|i: int| 0 <= i < nv && #[trigger] declared_before(n, i) {
        exists|i: int|
            0 <= i < nv && #[trigger] declared_before(n, i) && (forall|i2: int| 0 <= i2 < i ==> !declared_before(n, i2))
                && m == redeclared_message(name_at(n, i))
    } else if exists|k: int| 0 <= k < ni && #[trigger] input_refused(n, k) {
        exists|k: int|
            0 <= k < ni && #[trigger] input_refused(n, k) && (forall|k2: int| 0 <= k2 < k ==> !input_refused(n, k2))
                && m == input_message(n, k)
    } else if exists|k: int| 0 <= k < no && #[trigger] lookup(n, n.outputs@[k]@) is None {
        exists|k: int|
            0 <= k < no && #[trigger] lookup(n, n.outputs@[k]@) is None && (forall|k2: int|
                0 <= k2 < k ==> lookup(n, n.outputs@[k2]@) is Some) && m == missing_message(n.outputs@[k]@)
    } else if exists|k: int| 0 <= k < nd && #[trigger] def_refused(n, k) {
        exists|k: int|
            0 <= k < nd && #[trigger] def_refused(n, k) && (forall|k2: int| 0 <= k2 < k ==> !def_refused(n, k2)) && m
                == refusal_message(n, k)
    } else {
        exists|i: int|
            0 <= i < nv && #[trigger] def_total(n, i, ni, nd) == 0 && (forall|i2: int|
                0 <= i2 < i ==> def_total(n, i2, ni, nd) != 0) && m == undefined_message(name_at(n, i))
    }
}

/// The machine limits under which a netlist can be laid out: all wires
/// fit in memory, constants fit in 32 bits, and every RAM and ROM can be
/// addressed.
pub open spec fn netlist_fits(n: &Netlist) -> bool {
    &&& total_len(n) <= usize::MAX
    &&& forall|k: int| 0 <= k < n.defs@.len() ==> def_fits(#[trigger] n.defs@[k].1)
}

/// A constant operand has at most `u32::MAX` bits.
pub open spec fn consts_fit(a: Arg) -> bool {
    match a {
        Arg::Const(Value::BitArray(v)) => v@.len() <= u32::MAX,
        _ => true,
    }
}

/// The described bus: its length, address and name.
pub open spec fn io_entry(n: &Netlist, name: String) -> (u32, usize, Seq<char>) {
    let i = lookup(n, name@).unwrap();
    (len_at(n, i) as u32, addr_at(n, i) as usize, name@)
}

/// The graph of a valid netlist.
pub open spec fn graph_of(n: &Netlist, g: &OpsGraph) -> bool {
    &&& g.mem_size == total_len(n)
    &&& g.inputs@.len() == n.inputs@.len()
    &&& forall|k: int|
        0 <= k < n.inputs@.len() ==> (g.inputs@[k].0, g.inputs@[k].1, g.inputs@[k].2@) == io_entry(
            n,
            #[trigger] n.inputs@[k],
        )
    &&& g.outputs@.len() == n.outputs@.len()
    &&& forall|k: int|
        0 <= k < n.outputs@.len() ==> (g.outputs@[k].0, g.outputs@[k].1, g.outputs@[k].2@) == io_entry(
            n,
            #[trigger] n.outputs@[k],
        )
    &&& g.edges@.len() == n.vars@.len()
    &&& forall|i: int|
        0 <= i < n.vars@.len() ==> edge_of(n, i, #[trigger] g.edges@[i])
    &&& g.mem_ops@.len() == mem_ops_before(n, n.defs@.len() as int)
    &&& forall|k: int|
        0 <= k < n.defs@.len() && #[trigger] is_mem_op(n.defs@[k].1) ==> {
            let i = lookup(n, n.defs@[k].0@).unwrap();
            g.mem_ops@[mem_ops_before(n, k) as int]@ == mem_op_of(n, k, len_at(n, i), addr_at(n, i))
        }
    &&& g.mems@.len() == mems_before(n, n.defs@.len() as int)
    &&& forall|k: int|
        0 <= k < n.defs@.len() && #[trigger] is_aux_mem(n.defs@[k].1) ==> mem_info_of(
            n.defs@[k].1,
            g.mems@[mems_before(n, k) as int],
        )
}

/// The size and word length of the memory of a RAM or ROM equation.
pub open spec fn mem_info_of(def: Def, m: MemInfo) -> bool {
    match def {
        Def::Ram(d) => m.size == two_pow(d.address_size as nat) && m.word_length == d.word_size,
        Def::Rom(d) => m.size == two_pow(d.address_size as nat) && m.word_length == d.word_size,
        _ => true,
    }
}

/// The edge of the `i`-th variable: its name, address, length, definition
/// and dependencies.
pub open spec fn edge_of(n: &Netlist, i: int, e: VarInfo) -> bool {
    &&& e.name@ == name_at(n, i)
    &&& e.address == addr_at(n, i)
    &&& if input_count(n, name_at(n, i), n.inputs@.len() as int) > 0 {
        &&& e.def@ == VarDefView::Input
        &&& e.deps@ == Seq::<usize>::empty()
        &&& e.len == len_at(n, i)
    } else {
        let def = n.defs@[def_index(n, name_at(n, i))].1;
        &&& e.def@ == def_view(n, len_at(n, i), def)
        &&& e.deps@ == def_deps(n, def)
        &&& e.len == def_len(len_at(n, i), def)
    }
}

} // verus!

verus! {

// ---------------------------------------------------------------------
// Lemmas on the model.
// ---------------------------------------------------------------------

proof fn lemma_lookup_first(n: &Netlist, name: Seq<char>, i: int)
    requires
        0 <= i < n.vars@.len(),
        name_at(n, i) == name,
        forall|j: int| 0 <= j < i ==> name_at(n, j) != name,
    ensures
        lookup(n, name) == Some(i),
{
    reveal(lookup);
    let k = choose|k: int|
        0 <= k < n.vars@.len() && name_at(n, k) == name && forall|j: int| 0 <= j < k ==> name_at(n, j) != name;
    assert(0 <= k < n.vars@.len() && name_at(n, k) == name && forall|j: int| 0 <= j < k ==> name_at(n, j) != name);
    if k < i {
    } else if i < k {
    }
}

proof fn lemma_lookup_distinct(n: &Netlist, i: int)
    requires
        names_distinct(n),
        0 <= i < n.vars@.len(),
    ensures
        lookup(n, name_at(n, i)) == Some(i),
{
    lemma_lookup_first(n, name_at(n, i), i);
}

proof fn lemma_lookup_in_range(n: &Netlist, name: Seq<char>)
    ensures
        lookup(n, name) matches Some(i) ==> 0 <= i < n.vars@.len() && name_at(n, i) == name,
{
    reveal(lookup);
    if exists|i: int| 0 <= i < n.vars@.len() && name_at(n, i) == name {
        let w = choose|i: int| 0 <= i < n.vars@.len() && name_at(n, i) == name;
        lemma_first_exists(n, name, w);
    }
}

proof fn lemma_first_exists(n: &Netlist, name: Seq<char>, w: int)
    requires
        0 <= w < n.vars@.len() && name_at(n, w) == name,
    ensures
        exists|i: int|
            0 <= i < n.vars@.len() && name_at(n, i) == name && forall|j: int| 0 <= j < i ==> name_at(n, j) != name,
    decreases w,
{
    if exists|j: int| 0 <= j < w && name_at(n, j) == name {
        let j = choose|j: int| 0 <= j < w && name_at(n, j) == name;
        lemma_first_exists(n, name, j);
    } else {
        assert(forall|j: int| 0 <= j < w ==> name_at(n, j) != name);
    }
}

proof fn lemma_addr_mono(n: &Netlist, i: int, j: int)
    requires
        0 <= i <= j,
    ensures
        addr_at(n, i) <= addr_at(n, j),
    decreases j,
{
    if i < j {
        lemma_addr_mono(n, i, j - 1);
    }
}

proof fn lemma_input_count_mono(n: &Netlist, name: Seq<char>, a: int, b: int)
    requires
        0 <= a <= b,
    ensures
        input_count(n, name, a) <= input_count(n, name, b),
    decreases b,
{
    if a < b {
        lemma_input_count_mono(n, name, a, b - 1);
    }
}

proof fn lemma_def_count_mono(n: &Netlist, name: Seq<char>, a: int, b: int)
    requires
        0 <= a <= b,
    ensures
        def_count(n, name, a) <= def_count(n, name, b),
    decreases b,
{
    if a < b {
        lemma_def_count_mono(n, name, a, b - 1);
    }
}

proof fn lemma_def_count_pos(n: &Netlist, name: Seq<char>, k: int, b: int)
    requires
        0 <= k < b,
        n.defs@[k].0@ == name,
    ensures
        def_count(n, name, b) >= def_count(n, name, k) + 1,
    decreases b,
{
    if k < b - 1 {
        lemma_def_count_pos(n, name, k, b - 1);
    }
}

proof fn lemma_def_unique(n: &Netlist, name: Seq<char>, k: int)
    requires
        0 <= k < n.defs@.len(),
        n.defs@[k].0@ == name,
        def_count(n, name, n.defs@.len() as int) == 1,
    ensures
        def_index(n, name) == k,
{
    let c = def_index(n, name);
    assert(0 <= c < n.defs@.len() && n.defs@[c].0@ == name);
    if c < k {
        lemma_def_count_pos(n, name, c, k);
        lemma_def_count_pos(n, name, k, n.defs@.len() as int);
        lemma_def_count_mono(n, name, 0, c);
    } else if k < c {
        lemma_def_count_pos(n, name, k, c);
        lemma_def_count_pos(n, name, c, n.defs@.len() as int);
        lemma_def_count_mono(n, name, 0, k);
    }
}

} // verus!

verus! {

/// The index of the first variable named `name`, if any.
fn find_var(n: &Netlist, name: &str) -> (r: Option<usize>)
    ensures
        match r {
            Some(i) => lookup(n, name@) == Some(i as int),
            None => lookup(n, name@) is None,
        },
{
    let mut j: usize = 0;
    while j < n.vars.len()
        invariant
            j <= n.vars@.len(),
            forall|k: int| 0 <= k < j ==> name_at(n, k) != name@,
        decreases n.vars.len() - j,
    {
        if str_eq(n.vars[j].0.as_str(), name) {
            proof {
                lemma_lookup_first(n, name@, j as int);
            }
            return Some(j);
        }
        j = j + 1;
    }
    proof {
        lemma_lookup_in_range(n, name@);
    }
    None
}

/// The error reported for a name that is not declared.
fn missing_var(name: &str) -> (e: String)
    ensures
        e@ == "Can't find variable "@ + name@ + "."@,
{
    cat3("Can't find variable ", name, ".")
}

/// The length, dependency and simulated form of an operand.
fn find_arg(n: &Netlist, addrs: &Vec<(usize, u32)>, a: &Arg) -> (r: Result<(u64, Option<usize>, OpArg), String>)
    requires
        layout_ok(n, addrs@),
    ensures
        r is Ok <==> arg_len(n, *a) is Some,
        r matches Err(e) ==> arg_missing(n, *a) == Some(e@),
        r matches Ok((len, dep, op)) ==> {
            &&& len == arg_len(n, *a).unwrap()
            &&& op@ == arg_op(n, *a)
            &&& opt_seq(dep) == arg_dep(n, *a)
            &&& dep matches Some(d) ==> d < n.vars@.len()
        },
{
    match a {
        Arg::Const(Value::Bit(b)) => {
            let mut v: Vec<bool> = Vec::new();
            v.push(*b);
            assert(v@ == seq![*b]);
            Ok((1, None, OpArg::Cst(v)))
        },
        Arg::Const(Value::BitArray(v)) => {
            let c = copy_vec(v);
            Ok((v.len() as u64, None, OpArg::Cst(c)))
        },
        Arg::Var(name) => {
            match find_var(n, name.as_str()) {
                Some(i) => {
                    proof {
                        lemma_lookup_in_range(n, name@);
                    }
                    Ok((addrs[i].1 as u64, Some(i), OpArg::Var(addrs[i].0)))
                },
                None => Err(missing_var(name.as_str())),
            }
        },
    }
}

fn copy_vec(v: &Vec<bool>) -> (r: Vec<bool>)
    ensures
        r@ == v@,
{
    super::types::copy_bits(v)
}

/// `2^k`, when it fits in a `usize`.
fn pow2_usize(k: u32) -> (r: usize)
    requires
        two_pow(k as nat) <= usize::MAX,
    ensures
        r == two_pow(k as nat),
{
    let mut r: usize = 1;
    let mut i: u32 = 0;
    while i < k
        invariant
            i <= k,
            r == two_pow(i as nat),
            two_pow(k as nat) <= usize::MAX,
        decreases k - i,
    {
        proof {
            lemma_two_pow_mono(i as nat + 1, k as nat);
        }
        r = 2 * r;
        i = i + 1;
    }
    r
}

proof fn lemma_two_pow_mono(a: nat, b: nat)
    requires
        a <= b,
    ensures
        two_pow(a) <= two_pow(b),
    decreases b,
{
    if a < b {
        lemma_two_pow_mono(a, (b - 1) as nat);
    }
}

} // verus!

verus! {

/// The machine limits that concern one equation.
pub open spec fn def_fits(def: Def) -> bool {
    match def {
        Def::Ram(d) => two_pow(d.address_size as nat) <= usize::MAX && consts_fit(d.read_address)
            && consts_fit(d.write_enable) && consts_fit(d.write_address) && consts_fit(d.data),
        Def::Rom(d) => two_pow(d.address_size as nat) <= usize::MAX && consts_fit(d.read_address),
        Def::Fwd(a) | Def::Not(a) | Def::Select(_, a) | Def::Slice(_, _, a) => consts_fit(a),
        Def::Bin(_, a, b) | Def::Concat(a, b) => consts_fit(a) && consts_fit(b),
        Def::Mux(a, b, c) => consts_fit(a) && consts_fit(b) && consts_fit(c),
        Def::Reg(_) => true,
    }
}

fn mismatch() -> (e: String)
    ensures
        e@ == "Mismatched lengths."@,
{
    proof {
        reveal_strlit("Mismatched lengths.");
    }
    owned("Mismatched lengths.")
}

/// The error for operands of mismatched lengths.
pub open spec fn mismatch_message() -> Seq<char> {
    "Mismatched lengths."@
}

/// The error for an operand that names no variable, if it does.
pub open spec fn arg_missing(n: &Netlist, a: Arg) -> Option<Seq<char>> {
    match a {
        Arg::Var(x) => if lookup(n, x@) is None {
            Some(missing_message(x@))
        } else {
            None
        },
        _ => None,
    }
}

/// The first of two errors.
pub open spec fn first_err(a: Option<Seq<char>>, b: Option<Seq<char>>) -> Option<Seq<char>> {
    if a is Some {
        a
    } else {
        b
    }
}

/// The error `a`, or else `m`.
pub open spec fn err_or(a: Option<Seq<char>>, m: Seq<char>) -> Seq<char> {
    match a {
        Some(x) => x,
        None => m,
    }
}

/// The error for a selected index past the end of its operand.
pub open spec fn index_message(index: nat, len: nat) -> Seq<char> {
    "Index ("@ + decimal(index) + ") out of bounds (length is "@ + decimal(len) + ")."@
}

/// The error for an output whose length does not fit.
pub open spec fn output_len_message() -> Seq<char> {
    "Expected the output's length to be 1"@
}

/// The error that checking an equation for a variable of `len` wires gives,
/// where it is refused: its first operand that names no variable, in the
/// order written; else the bounds of a selection or slice; else the
/// lengths.
pub open spec fn def_message(n: &Netlist, len: nat, def: Def) -> Seq<char> {
    match def {
        Def::Fwd(a) => err_or(arg_missing(n, a), mismatch_message()),
        Def::Not(a) => err_or(arg_missing(n, a), mismatch_message()),
        Def::Bin(_, l, r) => err_or(first_err(arg_missing(n, l), arg_missing(n, r)), mismatch_message()),
        Def::Concat(l, r) => err_or(first_err(arg_missing(n, l), arg_missing(n, r)), mismatch_message()),
        Def::Mux(x, l, r) => err_or(
            first_err(arg_missing(n, x), first_err(arg_missing(n, l), arg_missing(n, r))),
            "Mismatched lengths (expected 1)."@,
        ),
        Def::Reg(src) => if lookup(n, src@) is None {
            missing_message(src@)
        } else {
            mismatch_message()
        },
        Def::Ram(d) => err_or(
            first_err(
                arg_missing(n, d.read_address),
                first_err(arg_missing(n, d.write_enable), first_err(arg_missing(n, d.write_address), arg_missing(n, d.data))),
            ),
            mismatch_message(),
        ),
        Def::Rom(d) => err_or(arg_missing(n, d.read_address), mismatch_message()),
        Def::Select(index, src) => match arg_missing(n, src) {
            Some(m) => m,
            None => if !(index < arg_len(n, src).unwrap()) {
                index_message(index as nat, arg_len(n, src).unwrap())
            } else {
                output_len_message()
            },
        },
        Def::Slice(start, end, src) => match arg_missing(n, src) {
            Some(m) => m,
            None => if !(start <= end && end < arg_len(n, src).unwrap()) {
                "Invalid slice bounds."@
            } else {
                output_len_message()
            },
        },
    }
}

/// What checking an equation computes: success exactly on well-typed
/// equations, with the definition, dependencies, recorded length, memory
/// operation and memory that the equation gives to the variable.
pub open spec fn translated(
    n: &Netlist,
    len: u32,
    address: usize,
    def: Def,
    mem_id: usize,
    r: Result<(VarDef, Vec<usize>, u32, Option<MemOp>, Option<MemInfo>), String>,
) -> bool {
    &&& (r is Ok <==> def_ok(n, len as nat, def))
    &&& (r matches Err(e) ==> e@ == def_message(n, len as nat, def))
    &&& r matches Ok((vd, deps, l, mop, minfo)) ==> {
        &&& vd@ == def_view(n, len as nat, def)
        &&& deps@ == def_deps(n, def)
        &&& forall|j: int| 0 <= j < deps@.len() ==> deps@[j] < n.vars@.len()
        &&& l == def_len(len as nat, def)
        &&& (mop is Some <==> is_mem_op(def))
        &&& (mop matches Some(m) ==> m@ == mem_op_view(n, def, mem_id as nat, len as nat, address as nat))
        &&& (minfo is Some <==> is_aux_mem(def))
        &&& (minfo matches Some(m) ==> mem_info_of(def, m))
    }
}

/// The layout facts that checking an equation relies on.
pub open spec fn layout_ok(n: &Netlist, addrs: Seq<(usize, u32)>) -> bool {
    &&& addrs.len() == n.vars@.len()
    &&& forall|i: int| 0 <= i < n.vars@.len() ==> addrs[i].0 == addr_at(n, i) && addrs[i].1 == len_at(n, i)
    &&& forall|i: int| 0 <= i < n.vars@.len() ==> len_at(n, i) <= u32::MAX
}

/// Checks an equation that defines a variable of `len` wires at `address`,
/// and computes the variable's definition, dependencies and recorded
/// length, with its memory operation and memory when it has one.
fn translate_def(
    n: &Netlist,
    addrs: &Vec<(usize, u32)>,
    len: u32,
    address: usize,
    def: &Def,
    mem_id: usize,
) -> (r: Result<(VarDef, Vec<usize>, u32, Option<MemOp>, Option<MemInfo>), String>)
    requires
        layout_ok(n, addrs@),
        def_fits(*def),
    ensures
        translated(n, len, address, *def, mem_id, r),
{
    match def {
        Def::Fwd(_) => translate_fwd(n, addrs, len, address, def, mem_id),
        Def::Not(_) => translate_not(n, addrs, len, address, def, mem_id),
        Def::Bin(_, _, _) => translate_bin(n, addrs, len, address, def, mem_id),
        Def::Mux(_, _, _) => translate_mux(n, addrs, len, address, def, mem_id),
        Def::Reg(_) => translate_reg(n, addrs, len, address, def, mem_id),
        Def::Ram(_) => translate_ram(n, addrs, len, address, def, mem_id),
        Def::Rom(_) => translate_rom(n, addrs, len, address, def, mem_id),
        Def::Select(_, _) => translate_select(n, addrs, len, address, def, mem_id),
        Def::Slice(_, _, _) => translate_slice(n, addrs, len, address, def, mem_id),
        Def::Concat(_, _) => translate_concat(n, addrs, len, address, def, mem_id),
    }
}

fn translate_fwd(
    n: &Netlist,
    addrs: &Vec<(usize, u32)>,
    len: u32,
    address: usize,
    def: &Def,
    mem_id: usize,
) -> (r: Result<(VarDef, Vec<usize>, u32, Option<MemOp>, Option<MemInfo>), String>)
    requires
        layout_ok(n, addrs@),
        def_fits(*def),
        *def is Fwd,
    ensures
        translated(n, len, address, *def, mem_id, r),
{
    reveal(def_ok);
    reveal(def_view);
    reveal(def_deps);
    reveal(mem_op_view);
    match def {
        Def::Fwd(arg) => {
            let (arg_len, arg_id, arg_arg) = match find_arg(n, addrs, arg) {
                Ok(x) => x,
                Err(e) => {
                    return Err(e);
                },
            };
            if !(len as u64 == arg_len) {
                return Err(mismatch());
            }
            Ok((VarDef::Fwd(len, arg_arg), deps_from(arg_id, None, None, n.vars.len()), len, None, None))
        },
        _ => Err(owned("")),
    }
}

fn translate_not(
    n: &Netlist,
    addrs: &Vec<(usize, u32)>,
    len: u32,
    address: usize,
    def: &Def,
    mem_id: usize,
) -> (r: Result<(VarDef, Vec<usize>, u32, Option<MemOp>, Option<MemInfo>), String>)
    requires
        layout_ok(n, addrs@),
        def_fits(*def),
        *def is Not,
    ensures
        translated(n, len, address, *def, mem_id, r),
{
    reveal(def_ok);
    reveal(def_view);
    reveal(def_deps);
    reveal(mem_op_view);
    match def {
        Def::Not(arg) => {
            let (arg_len, arg_id, arg_arg) = match find_arg(n, addrs, arg) {
                Ok(x) => x,
                Err(e) => {
                    return Err(e);
                },
            };
            if !(len as u64 == arg_len) {
                return Err(mismatch());
            }
            Ok((VarDef::Not(len, arg_arg), deps_from(arg_id, None, None, n.vars.len()), len, None, None))
        },
        _ => Err(owned("")),
    }
}

fn translate_bin(
    n: &Netlist,
    addrs: &Vec<(usize, u32)>,
    len: u32,
    address: usize,
    def: &Def,
    mem_id: usize,
) -> (r: Result<(VarDef, Vec<usize>, u32, Option<MemOp>, Option<MemInfo>), String>)
    requires
        layout_ok(n, addrs@),
        def_fits(*def),
        *def is Bin,
    ensures
        translated(n, len, address, *def, mem_id, r),
{
    reveal(def_ok);
    reveal(def_view);
    reveal(def_deps);
    reveal(mem_op_view);
    match def {
        Def::Bin(op, l, r) => {
            let (l_len, l_id, l_arg) = match find_arg(n, addrs, l) {
                Ok(x) => x,
                Err(e) => {
                    return Err(e);
                },
            };
            let (r_len, r_id, r_arg) = match find_arg(n, addrs, r) {
                Ok(x) => x,
                Err(e) => {
                    return Err(e);
                },
            };
            if !(len as u64 == l_len && len as u64 == r_len) {
                return Err(mismatch());
            }
            let op = match op {
                BinOpType::Or => BinOp::Or,
                BinOpType::Xor => BinOp::Xor,
                BinOpType::And => BinOp::And,
                BinOpType::Nand => BinOp::Nand,
            };
            Ok((VarDef::BinOp(op, len, l_arg, r_arg), deps_from(l_id, r_id, None, n.vars.len()), len, None, None))
        },
        _ => Err(owned("")),
    }
}

fn translate_mux(
    n: &Netlist,
    addrs: &Vec<(usize, u32)>,
    len: u32,
    address: usize,
    def: &Def,
    mem_id: usize,
) -> (r: Result<(VarDef, Vec<usize>, u32, Option<MemOp>, Option<MemInfo>), String>)
    requires
        layout_ok(n, addrs@),
        def_fits(*def),
        *def is Mux,
    ensures
        translated(n, len, address, *def, mem_id, r),
{
    reveal(def_ok);
    reveal(def_view);
    reveal(def_deps);
    reveal(mem_op_view);
    match def {
        Def::Mux(sel, l, r) => {
            let (sel_len, sel_id, sel_arg) = match find_arg(n, addrs, sel) {
                Ok(x) => x,
                Err(e) => {
                    return Err(e);
                },
            };
            let (l_len, l_id, l_arg) = match find_arg(n, addrs, l) {
                Ok(x) => x,
                Err(e) => {
                    return Err(e);
                },
            };
            let (r_len, r_id, r_arg) = match find_arg(n, addrs, r) {
                Ok(x) => x,
                Err(e) => {
                    return Err(e);
                },
            };
            if !(1 == sel_len && 1 == l_len && 1 == r_len) {
                return Err(owned("Mismatched lengths (expected 1)."));
            }
            let deps = deps_from(sel_id, l_id, r_id, n.vars.len());
            Ok((VarDef::Mux(sel_arg, l_arg, r_arg), deps, 1, None, None))
        },
        _ => Err(owned("")),
    }
}

fn translate_reg(
    n: &Netlist,
    addrs: &Vec<(usize, u32)>,
    len: u32,
    address: usize,
    def: &Def,
    mem_id: usize,
) -> (r: Result<(VarDef, Vec<usize>, u32, Option<MemOp>, Option<MemInfo>), String>)
    requires
        layout_ok(n, addrs@),
        def_fits(*def),
        *def is Reg,
    ensures
        translated(n, len, address, *def, mem_id, r),
{
    reveal(def_ok);
    reveal(def_view);
    reveal(def_deps);
    reveal(mem_op_view);
    match def {
        Def::Reg(source) => {
            match find_var(n, source.as_str()) {
                None => Err(missing_var(source.as_str())),
                Some(src) => {
                    proof {
                        lemma_lookup_in_range(n, source@);
                    }
                    if !(len == addrs[src].1) {
                        return Err(mismatch());
                    }
                    let op = MemOp::Reg(RegOp { data_len: len, input: addrs[src].0, output: address });
                    Ok((VarDef::Mem, Vec::new(), len, Some(op), None))
                },
            }
        },
        _ => Err(owned("")),
    }
}

/// The four operands of a RAM.
fn ram_args(n: &Netlist, addrs: &Vec<(usize, u32)>, data: &RamData) -> (r: Result<((u64, OpArg), (u64, OpArg), (u64, OpArg), (u64, OpArg)), String>)
    requires
        layout_ok(n, addrs@),
    ensures
        r is Ok <==> arg_len(n, data.read_address) is Some && arg_len(n, data.write_enable) is Some && arg_len(
            n,
            data.write_address,
        ) is Some && arg_len(n, data.data) is Some,
        r matches Err(e) ==> first_err(
            arg_missing(n, data.read_address),
            first_err(arg_missing(n, data.write_enable), first_err(arg_missing(n, data.write_address), arg_missing(n, data.data))),
        ) == Some(e@),
        r matches Ok((a, b, c, d)) ==> {
            &&& a.0 == arg_len(n, data.read_address).unwrap() && a.1@ == arg_op(n, data.read_address)
            &&& b.0 == arg_len(n, data.write_enable).unwrap() && b.1@ == arg_op(n, data.write_enable)
            &&& c.0 == arg_len(n, data.write_address).unwrap() && c.1@ == arg_op(n, data.write_address)
            &&& d.0 == arg_len(n, data.data).unwrap() && d.1@ == arg_op(n, data.data)
        },
{
    let (a, _, a_arg) = match find_arg(n, addrs, &data.read_address) {
        Ok(x) => x,
        Err(e) => {
            return Err(e);
        },
    };
    let (b, _, b_arg) = match find_arg(n, addrs, &data.write_enable) {
        Ok(x) => x,
        Err(e) => {
            return Err(e);
        },
    };
    let (c, _, c_arg) = match find_arg(n, addrs, &data.write_address) {
        Ok(x) => x,
        Err(e) => {
            return Err(e);
        },
    };
    let (d, _, d_arg) = match find_arg(n, addrs, &data.data) {
        Ok(x) => x,
        Err(e) => {
            return Err(e);
        },
    };
    Ok(((a, a_arg), (b, b_arg), (c, c_arg), (d, d_arg)))
}

#[verifier::spinoff_prover]
#[verifier::rlimit(100)]
fn translate_ram(
    n: &Netlist,
    addrs: &Vec<(usize, u32)>,
    len: u32,
    address: usize,
    def: &Def,
    mem_id: usize,
) -> (r: Result<(VarDef, Vec<usize>, u32, Option<MemOp>, Option<MemInfo>), String>)
    requires
        layout_ok(n, addrs@),
        def_fits(*def),
        *def is Ram,
    ensures
        translated(n, len, address, *def, mem_id, r),
{
    reveal(def_ok);
    reveal(def_view);
    reveal(def_deps);
    reveal(mem_op_view);
    match def {
        Def::Ram(data) => {
            let ((ra_len, ra_arg), (we_len, we_arg), (wa_len, wa_arg), (da_len, da_arg)) = match ram_args(n, addrs, data) {
                Ok(x) => x,
                Err(e) => {
                    return Err(e);
                },
            };
            let addr_len = data.address_size;
            let word_len = data.word_size;
            if !(addr_len as u64 == ra_len && addr_len as u64 == wa_len && 1 == we_len && word_len as u64 == da_len
                && word_len == len) {
                return Err(mismatch());
            }
            let op = MemOp::Ram(
                RamOp {
                    mem_id,
                    address_size: addr_len,
                    word_size: word_len,
                    read_address: ra_arg,
                    write_enable: we_arg,
                    write_address: wa_arg,
                    data: da_arg,
                    output: address,
                },
            );
            let info = MemInfo { size: pow2_usize(addr_len), word_length: word_len };
            Ok((VarDef::Mem, Vec::new(), len, Some(op), Some(info)))
        },
        _ => Err(owned("")),
    }
}

fn translate_rom(
    n: &Netlist,
    addrs: &Vec<(usize, u32)>,
    len: u32,
    address: usize,
    def: &Def,
    mem_id: usize,
) -> (r: Result<(VarDef, Vec<usize>, u32, Option<MemOp>, Option<MemInfo>), String>)
    requires
        layout_ok(n, addrs@),
        def_fits(*def),
        *def is Rom,
    ensures
        translated(n, len, address, *def, mem_id, r),
{
    reveal(def_ok);
    reveal(def_view);
    reveal(def_deps);
    reveal(mem_op_view);
    match def {
        Def::Rom(data) => {
            let (ra_len, _ra_id, ra_arg) = match find_arg(n, addrs, &data.read_address) {
                Ok(x) => x,
                Err(e) => {
                    return Err(e);
                },
            };
            let addr_len = data.address_size;
            let word_len = data.word_size;
            if !(addr_len as u64 == ra_len && word_len == len) {
                return Err(mismatch());
            }
            let op = MemOp::Rom(
                RomOp { mem_id, address_size: addr_len, word_size: word_len, read_address: ra_arg, output: address },
            );
            let info = MemInfo { size: pow2_usize(addr_len), word_length: word_len };
            Ok((VarDef::Mem, Vec::new(), len, Some(op), Some(info)))
        },
        _ => Err(owned("")),
    }
}

fn translate_select(
    n: &Netlist,
    addrs: &Vec<(usize, u32)>,
    len: u32,
    address: usize,
    def: &Def,
    mem_id: usize,
) -> (r: Result<(VarDef, Vec<usize>, u32, Option<MemOp>, Option<MemInfo>), String>)
    requires
        layout_ok(n, addrs@),
        def_fits(*def),
        *def is Select,
    ensures
        translated(n, len, address, *def, mem_id, r),
{
    reveal(def_ok);
    reveal(def_view);
    reveal(def_deps);
    reveal(mem_op_view);
    match def {
        Def::Select(index, source) => {
            let (src_len, src_id, src_arg) = match find_arg(n, addrs, source) {
                Ok(x) => x,
                Err(e) => {
                    return Err(e);
                },
            };
            if !((*index as u64) < src_len) {
                let i = u64_to_decimal(*index as u64);
                let l = u64_to_decimal(src_len);
                let head = cat3("Index (", i.as_str(), ") out of bounds (length is ");
                return Err(cat3(head.as_str(), l.as_str(), ")."));
            }
            if len != 1 {
                return Err(owned("Expected the output's length to be 1"));
            }
            Ok((VarDef::Select(*index, src_arg), deps_from(src_id, None, None, n.vars.len()), len, None, None))
        },
        _ => Err(owned("")),
    }
}

fn translate_slice(
    n: &Netlist,
    addrs: &Vec<(usize, u32)>,
    len: u32,
    address: usize,
    def: &Def,
    mem_id: usize,
) -> (r: Result<(VarDef, Vec<usize>, u32, Option<MemOp>, Option<MemInfo>), String>)
    requires
        layout_ok(n, addrs@),
        def_fits(*def),
        *def is Slice,
    ensures
        translated(n, len, address, *def, mem_id, r),
{
    reveal(def_ok);
    reveal(def_view);
    reveal(def_deps);
    reveal(mem_op_view);
    match def {
        Def::Slice(start, end, source) => {
            let (src_len, src_id, src_arg) = match find_arg(n, addrs, source) {
                Ok(x) => x,
                Err(e) => {
                    return Err(e);
                },
            };
            if !(*start <= *end && (*end as u64) < src_len) {
                return Err(owned("Invalid slice bounds."));
            }
            if len as u64 != (*end as u64 - *start as u64 + 1) {
                return Err(owned("Expected the output's length to be 1"));
            }
            Ok((VarDef::Slice(*start, *end, src_arg), deps_from(src_id, None, None, n.vars.len()), len, None, None))
        },
        _ => Err(owned("")),
    }
}

#[verifier::spinoff_prover]
#[verifier::rlimit(100)]
fn translate_concat(
    n: &Netlist,
    addrs: &Vec<(usize, u32)>,
    len: u32,
    address: usize,
    def: &Def,
    mem_id: usize,
) -> (r: Result<(VarDef, Vec<usize>, u32, Option<MemOp>, Option<MemInfo>), String>)
    requires
        layout_ok(n, addrs@),
        def_fits(*def),
        *def is Concat,
    ensures
        translated(n, len, address, *def, mem_id, r),
{
    reveal(def_ok);
    reveal(def_view);
    reveal(def_deps);
    reveal(mem_op_view);
    match def {
        Def::Concat(l, r) => {
            let (l_len, l_id, l_arg) = match find_arg(n, addrs, l) {
                Ok(x) => x,
                Err(e) => {
                    return Err(e);
                },
            };
            let (r_len, r_id, r_arg) = match find_arg(n, addrs, r) {
                Ok(x) => x,
                Err(e) => {
                    return Err(e);
                },
            };
            if !(len as u64 == l_len + r_len) {
                return Err(mismatch());
            }
            Ok((VarDef::Concat(l_len as u32, l_arg, r_len as u32, r_arg), deps_from(l_id, r_id, None, n.vars.len()), len, None, None))
        },
        _ => Err(owned("")),
    }
}

/// The dependency that an optional variable stands for.
pub open spec fn opt_seq(d: Option<usize>) -> Seq<usize> {
    match d {
        Some(x) => seq![x],
        None => Seq::<usize>::empty(),
    }
}

/// The dependencies among up to three optional variables.
fn deps_from(a: Option<usize>, b: Option<usize>, c: Option<usize>, bound: usize) -> (r: Vec<usize>)
    requires
        a matches Some(x) ==> x < bound,
        b matches Some(x) ==> x < bound,
        c matches Some(x) ==> x < bound,
    ensures
        r@ == opt_seq(a) + opt_seq(b) + opt_seq(c),
        forall|j: int| 0 <= j < r@.len() ==> r@[j] < bound,
{
    let mut r: Vec<usize> = Vec::new();
    match a {
        Some(x) => r.push(x),
        None => {},
    }
    match b {
        Some(x) => r.push(x),
        None => {},
    }
    match c {
        Some(x) => r.push(x),
        None => {},
    }
    assert(r@ =~= opt_seq(a) + opt_seq(b) + opt_seq(c));
    r
}

} // verus!

verus! {

/// The variable has been recorded as an input.
pub open spec fn recorded_input(n: &Netlist, i: int, p: PartialVarInfo) -> bool {
    &&& p.def matches Some(d) && d@ == VarDefView::Input
    &&& p.deps matches Some(ds) && ds@ == Seq::<usize>::empty()
    &&& p.len == Some(len_at(n, i) as u32)
}

/// The variable has been recorded as defined by the `k`-th equation.
pub open spec fn recorded_def(n: &Netlist, i: int, p: PartialVarInfo, k: int) -> bool {
    &&& p.def matches Some(d) && d@ == def_view(n, len_at(n, i), n.defs@[k].1)
    &&& p.deps matches Some(ds) && ds@ == def_deps(n, n.defs@[k].1)
    &&& p.len matches Some(l) && l == def_len(len_at(n, i), n.defs@[k].1)
}

/// The number of times the `j`-th variable is defined by the first `ki`
/// inputs and the first `kd` equations.
pub open spec fn def_total(n: &Netlist, j: int, ki: int, kd: int) -> nat {
    input_count(n, name_at(n, j), ki) + def_count(n, name_at(n, j), kd)
}

/// What has been recorded about the variables once the first `ki` inputs
/// and the first `kd` equations have been processed; `owner` gives, for
/// each variable defined by an equation, the index of that equation.
pub open spec fn defs_state(n: &Netlist, edges: Seq<PartialVarInfo>, ki: int, kd: int, owner: Seq<int>) -> bool {
    &&& edges.len() == n.vars@.len()
    &&& owner.len() == n.vars@.len()
    &&& forall|j: int|
        0 <= j < n.vars@.len() ==> (#[trigger] edges[j]).name@ == name_at(n, j) && edges[j].address == addr_at(n, j)
    &&& forall|j: int| 0 <= j < n.vars@.len() ==> def_total(n, j, ki, kd) <= 1
    &&& forall|j: int| 0 <= j < n.vars@.len() ==> (def_total(n, j, ki, kd) == 0 <==> (#[trigger] edges[j]).is_empty())
    &&& forall|j: int|
        0 <= j < n.vars@.len() && input_count(n, name_at(n, j), ki) == 1 ==> recorded_input(n, j, #[trigger] edges[j])
    &&& forall|j: int|
        0 <= j < n.vars@.len() && def_count(n, name_at(n, j), kd) == 1 ==> 0 <= #[trigger] owner[j] < kd
            && n.defs@[owner[j]].0@ == name_at(n, j)
    &&& forall|j: int|
        0 <= j < n.vars@.len() && def_count(n, name_at(n, j), kd) == 1 ==> recorded_def(
            n,
            j,
            #[trigger] edges[j],
            owner[j],
        )
}

/// Lays the variables out side by side, rejecting duplicate names.
fn layout(n: &Netlist) -> (r: Result<(Vec<(usize, u32)>, usize), String>)
    requires
        netlist_fits(n),
    ensures
        r is Ok <==> names_distinct(n),
        r matches Ok((a, m)) ==> layout_ok(n, a@) && m == total_len(n),
        r matches Err(e) ==> exists|i: int|
            0 <= i < n.vars@.len() && #[trigger] declared_before(n, i) && (forall|i2: int| 0 <= i2 < i ==> !declared_before(n, i2))
                && e@ == redeclared_message(name_at(n, i)),
{
    let nv = n.vars.len();
    let mut addrs: Vec<(usize, u32)> = Vec::new();
    let mut mem_size: usize = 0;
    let mut i: usize = 0;
    while i < nv
        invariant
            nv == n.vars@.len(),
            i <= nv,
            netlist_fits(n),
            addrs@.len() == i,
            forall|j: int| 0 <= j < i ==> addrs@[j].0 == addr_at(n, j) && addrs@[j].1 == len_at(n, j),
            forall|j: int| 0 <= j < i ==> len_at(n, j) <= u32::MAX,
            mem_size == addr_at(n, i as int),
            forall|a: int, b: int| 0 <= a < b < i ==> name_at(n, a) != name_at(n, b),
        decreases nv - i,
    {
        let len: u32 = match &n.vars[i].1 {
            ValueType::Bit => 1,
            ValueType::BitArray(k) => *k,
        };
        let mut j: usize = 0;
        while j < i
            invariant
                i < nv,
                nv == n.vars@.len(),
                j <= i,
                forall|a: int| 0 <= a < j ==> name_at(n, a) != name_at(n, i as int),
                forall|a: int, b: int| 0 <= a < b < i ==> name_at(n, a) != name_at(n, b),
            decreases i - j,
        {
            if str_eq(n.vars[j].0.as_str(), n.vars[i].0.as_str()) {
                assert(name_at(n, j as int) == name_at(n, i as int));
                let e = cat3("Variable \"", n.vars[i].0.as_str(), "\" already declared.");
                proof {
                    assert(declared_before(n, i as int));
                    assert forall|i2: int| 0 <= i2 < i implies !declared_before(n, i2) by {
                        if declared_before(n, i2) {
                            let w = choose|w: int| 0 <= w < i2 && name_at(n, w) == name_at(n, i2);
                            assert(name_at(n, w) != name_at(n, i2));
                        }
                    }
                }
                return Err(e);
            }
            j = j + 1;
        }
        proof {
            lemma_addr_mono(n, i as int + 1, nv as int);
        }
        addrs.push((mem_size, len));
        mem_size = mem_size + len as usize;
        i = i + 1;
    }
    Ok((addrs, mem_size))
}

/// One empty record per variable.
fn fresh_edges(n: &Netlist, addrs: &Vec<(usize, u32)>) -> (r: Vec<PartialVarInfo>)
    requires
        layout_ok(n, addrs@),
    ensures
        defs_state(n, r@, 0, 0, Seq::new(n.vars@.len(), |j: int| -1int)),
{
    let nv = n.vars.len();
    let mut edges: Vec<PartialVarInfo> = Vec::new();
    let mut i: usize = 0;
    while i < nv
        invariant
            nv == n.vars@.len(),
            i <= nv,
            layout_ok(n, addrs@),
            edges@.len() == i,
            forall|j: int|
                0 <= j < i ==> (#[trigger] edges@[j]).name@ == name_at(n, j) && edges@[j].address == addr_at(n, j)
                    && edges@[j].is_empty(),
        decreases nv - i,
    {
        edges.push(PartialVarInfo::new(n.vars[i].0.clone(), addrs[i].0));
        i = i + 1;
    }
    edges
}

/// Records the inputs, which are defined by the outside world.
#[verifier::spinoff_prover]
fn record_inputs(n: &Netlist, addrs: &Vec<(usize, u32)>, edges: &mut Vec<PartialVarInfo>, Ghost(o): Ghost<Seq<int>>) -> (r: Result<(), String>)
    requires
        names_distinct(n),
        layout_ok(n, addrs@),
        defs_state(n, old(edges)@, 0, 0, o),
    ensures
        r is Err ==> !netlist_valid(n),
        r is Ok ==> defs_state(n, final(edges)@, n.inputs@.len() as int, 0, o),
        r is Ok ==> forall|q: int| 0 <= q < n.inputs@.len() ==> lookup(n, #[trigger] n.inputs@[q]@) is Some,
        r is Ok ==> forall|q: int| 0 <= q < n.inputs@.len() ==> !#[trigger] input_refused(n, q),
        r matches Err(e) ==> exists|k: int|
            0 <= k < n.inputs@.len() && #[trigger] input_refused(n, k) && (forall|k2: int| 0 <= k2 < k ==> !input_refused(n, k2))
                && e@ == input_message(n, k),
{
    let nv = n.vars.len();
    let ni = n.inputs.len();
    let mut k: usize = 0;
    while k < ni
        invariant
            nv == n.vars@.len(),
            ni == n.inputs@.len(),
            k <= ni,
            names_distinct(n),
            layout_ok(n, addrs@),
            defs_state(n, edges@, k as int, 0, o),
            forall|q: int| 0 <= q < k ==> lookup(n, #[trigger] n.inputs@[q]@) is Some,
            forall|q: int| 0 <= q < k ==> !#[trigger] input_refused(n, q),
        decreases ni - k,
    {
        let id = match find_var(n, n.inputs[k].as_str()) {
            Some(id) => id,
            None => {
                let e = missing_var(n.inputs[k].as_str());
                proof {
                    assert(input_refused(n, k as int));
                    assert(e@ == input_message(n, k as int));
                }
                return Err(e);
            },
        };
        proof {
            lemma_lookup_in_range(n, n.inputs@[k as int]@);
            assert forall|j: int| 0 <= j < nv && j != id implies name_at(n, j) != n.inputs@[k as int]@ by {
                if j < id {
                } else {
                }
            }
        }
        match edges[id].check_empty() {
            Ok(()) => {},
            Err(e) => {
                proof {
                    let nm = name_at(n, id as int);
                    lemma_input_count_mono(n, nm, k as int + 1, ni as int);
                    lemma_def_count_mono(n, nm, 0, n.defs@.len() as int);
                    assert(nm == n.inputs@[k as int]@);
                    assert(def_total(n, id as int, k as int, 0) != 0);
                    assert(input_refused(n, k as int));
                    assert(e@ == input_message(n, k as int));
                }
                return Err(e);
            },
        }
        let len = addrs[id].1;
        let ghost e0 = edges@;
        assert(e0[id as int].is_empty());
        proof {
            assert(def_total(n, id as int, k as int, 0) == 0);
            assert(!input_refused(n, k as int));
        }
        edges[id].def = Some(VarDef::Input);
        edges[id].deps = Some(Vec::new());
        edges[id].len = Some(len);
        proof {
            assert forall|j: int| 0 <= j < nv implies input_count(n, name_at(n, j), k as int + 1) == input_count(
                n,
                name_at(n, j),
                k as int,
            ) + if j == id {
                1nat
            } else {
                0nat
            } by {
                if j < id {
                } else if j > id {
                }
            }
            let e = edges@;
            assert(e.len() == n.vars@.len());
            assert forall|j: int| 0 <= j < nv implies #[trigger] def_total(n, j, k as int + 1, 0) <= 1 && (def_total(
                n,
                j,
                k as int + 1,
                0,
            ) == 0 <==> e[j].is_empty()) && (input_count(n, name_at(n, j), k as int + 1) == 1 ==> recorded_input(
                n,
                j,
                e[j],
            )) by {
                assert(def_total(n, j, k as int, 0) <= 1);
                assert(def_total(n, j, k as int, 0) == 0 <==> e0[j].is_empty());
                assert(input_count(n, name_at(n, j), k as int) == 1 ==> recorded_input(n, j, e0[j]));
            }
        }
        k = k + 1;
    }
    Ok(())
}

/// Checks that every output is declared.
fn check_outputs(n: &Netlist) -> (r: Result<(), String>)
    ensures
        r is Ok <==> forall|q: int| 0 <= q < n.outputs@.len() ==> lookup(n, #[trigger] n.outputs@[q]@) is Some,
        r matches Err(e) ==> exists|k: int|
            0 <= k < n.outputs@.len() && #[trigger] lookup(n, n.outputs@[k]@) is None && (forall|k2: int|
                0 <= k2 < k ==> lookup(n, n.outputs@[k2]@) is Some) && e@ == missing_message(n.outputs@[k]@),
{
    let no = n.outputs.len();
    let mut k: usize = 0;
    while k < no
        invariant
            no == n.outputs@.len(),
            k <= no,
            forall|q: int| 0 <= q < k ==> lookup(n, #[trigger] n.outputs@[q]@) is Some,
        decreases no - k,
    {
        if find_var(n, n.outputs[k].as_str()).is_none() {
            return Err(missing_var(n.outputs[k].as_str()));
        }
        k = k + 1;
    }
    Ok(())
}

/// What the equations have produced once the first `kd` are processed.
pub open spec fn mems_state(n: &Netlist, kd: int, mem_ops: Seq<MemOp>, mems: Seq<MemInfo>) -> bool {
    &&& forall|q: int|
        0 <= q < kd ==> match lookup(n, #[trigger] n.defs@[q].0@) {
            Some(j) => def_ok(n, len_at(n, j), n.defs@[q].1),
            None => false,
        }
    &&& mem_ops.len() == mem_ops_before(n, kd)
    &&& forall|q: int|
        0 <= q < kd && #[trigger] is_mem_op(n.defs@[q].1) ==> {
            let j = lookup(n, n.defs@[q].0@).unwrap();
            mem_ops[mem_ops_before(n, q) as int]@ == mem_op_of(n, q, len_at(n, j), addr_at(n, j))
        }
    &&& mems.len() == mems_before(n, kd)
    &&& forall|q: int|
        0 <= q < kd && #[trigger] is_aux_mem(n.defs@[q].1) ==> mem_info_of(n.defs@[q].1, mems[mems_before(n, q) as int])
}

/// Records the `k`-th equation as the definition of its variable.
#[verifier::spinoff_prover]
#[verifier::rlimit(60)]
fn record_def(
    n: &Netlist,
    addrs: &Vec<(usize, u32)>,
    edges: &mut Vec<PartialVarInfo>,
    mem_ops: &mut Vec<MemOp>,
    mems: &mut Vec<MemInfo>,
    k: usize,
    Ghost(o): Ghost<Seq<int>>,
) -> (r: Result<Ghost<Seq<int>>, String>)
    requires
        k < n.defs@.len(),
        netlist_fits(n),
        names_distinct(n),
        layout_ok(n, addrs@),
        defs_state(n, old(edges)@, n.inputs@.len() as int, k as int, o),
        mems_state(n, k as int, old(mem_ops)@, old(mems)@),
    ensures
        r is Err ==> !netlist_valid(n),
        r matches Ok(g) ==> defs_state(n, final(edges)@, n.inputs@.len() as int, k + 1, g@),
        r is Ok ==> mems_state(n, k + 1, final(mem_ops)@, final(mems)@),
        r is Err ==> def_refused(n, k as int) && r->Err_0@ == refusal_message(n, k as int),
        r is Ok ==> !def_refused(n, k as int),
{
    let nv = n.vars.len();
    let nd = n.defs.len();
        let id = match find_var(n, n.defs[k].0.as_str()) {
            Some(id) => id,
            None => {
                let e = missing_var(n.defs[k].0.as_str());
                proof {
                    assert(target_refused(n, k as int));
                    assert(e@ == target_message(n, k as int));
                }
                return Err(e);
            },
        };
        proof {
            lemma_lookup_in_range(n, n.defs@[k as int].0@);
            assert forall|j: int| 0 <= j < nv && j != id implies name_at(n, j) != n.defs@[k as int].0@ by {
                if j < id {
                } else {
                }
            }
        }
        match edges[id].check_empty() {
            Ok(()) => {},
            Err(e) => {
                proof {
                    let nm = name_at(n, id as int);
                    lemma_def_count_mono(n, nm, k as int + 1, nd as int);
                    assert(nm == n.defs@[k as int].0@);
                    assert(def_total(n, id as int, n.inputs@.len() as int, k as int) != 0);
                    assert(target_refused(n, k as int));
                    assert(e@ == target_message(n, k as int));
                }
                return Err(e);
            },
        }
        let mem_id = mems.len();
        let len = addrs[id].1;
        let address = addrs[id].0;
        proof {
            assert(def_fits(n.defs@[k as int].1));
            assert(name_at(n, id as int) == n.defs@[k as int].0@);
            assert(def_total(n, id as int, n.inputs@.len() as int, k as int) == 0);
            assert(!target_refused(n, k as int));
            assert(len as nat == len_at(n, id as int));
        }
        let (vd, deps, l, mop, minfo) = match translate_def(n, addrs, len, address, &n.defs[k].1, mem_id) {
            Ok(t) => t,
            Err(e) => {
                proof {
                    assert(def_refused(n, k as int));
                }
                return Err(e);
            },
        };
        let ghost e0 = edges@;
        edges[id].def = Some(vd);
        edges[id].deps = Some(deps);
        edges[id].len = Some(l);
        match mop {
            Some(m) => mem_ops.push(m),
            None => {},
        }
        match minfo {
            Some(m) => mems.push(m),
            None => {},
        }
        let ghost owner = o.update(id as int, k as int);
        proof {
            assert(mem_ops@.take(old(mem_ops)@.len() as int) =~= old(mem_ops)@);
            assert(mems@.take(old(mems)@.len() as int) =~= old(mems)@);
            lemma_mems_step(n, k as int, old(mem_ops)@, old(mems)@, mem_ops@, mems@, id as int);
            lemma_defs_step(n, e0, edges@, n.inputs@.len() as int, k as int, o, id as int);
        }
    Ok(Ghost(owner))
}

#[verifier::spinoff_prover]
proof fn lemma_mems_step(
    n: &Netlist,
    k: int,
    ops0: Seq<MemOp>,
    mems0: Seq<MemInfo>,
    ops1: Seq<MemOp>,
    mems1: Seq<MemInfo>,
    j: int,
)
    requires
        0 <= k < n.defs@.len(),
        mems_state(n, k, ops0, mems0),
        lookup(n, n.defs@[k].0@) == Some(j),
        def_ok(n, len_at(n, j), n.defs@[k].1),
        is_mem_op(n.defs@[k].1) ==> ops1.len() == ops0.len() + 1 && ops1.take(ops0.len() as int) == ops0
            && ops1.last()@ == mem_op_view(n, n.defs@[k].1, mems0.len() as nat, len_at(n, j), addr_at(n, j)),
        !is_mem_op(n.defs@[k].1) ==> ops1 == ops0,
        is_aux_mem(n.defs@[k].1) ==> mems1.len() == mems0.len() + 1 && mems1.take(mems0.len() as int) == mems0
            && mem_info_of(n.defs@[k].1, mems1.last()),
        !is_aux_mem(n.defs@[k].1) ==> mems1 == mems0,
    ensures
        mems_state(n, k + 1, ops1, mems1),
{
    assert forall|q: int|
        0 <= q < k + 1 && #[trigger] is_mem_op(n.defs@[q].1) implies ({
            let i = lookup(n, n.defs@[q].0@).unwrap();
            ops1[mem_ops_before(n, q) as int]@ == mem_op_of(n, q, len_at(n, i), addr_at(n, i))
        }) by {
        if q < k {
            lemma_mem_ops_before_mono(n, q + 1, k);
            assert(ops1[mem_ops_before(n, q) as int] == ops1.take(ops0.len() as int)[mem_ops_before(n, q) as int]);
        }
    }
    assert forall|q: int|
        0 <= q < k + 1 && #[trigger] is_aux_mem(n.defs@[q].1) implies mem_info_of(
            n.defs@[q].1,
            mems1[mems_before(n, q) as int],
        ) by {
        if q < k {
            lemma_mems_before_mono(n, q + 1, k);
            assert(mems1[mems_before(n, q) as int] == mems1.take(mems0.len() as int)[mems_before(n, q) as int]);
        }
    }
}

#[verifier::spinoff_prover]
proof fn lemma_defs_step(n: &Netlist, e0: Seq<PartialVarInfo>, e1: Seq<PartialVarInfo>, ni: int, k: int, o: Seq<int>, id: int)
    requires
        0 <= k < n.defs@.len(),
        ni == n.inputs@.len(),
        names_distinct(n),
        defs_state(n, e0, ni, k, o),
        0 <= id < n.vars@.len(),
        name_at(n, id) == n.defs@[k].0@,
        e0[id].is_empty(),
        e1.len() == e0.len(),
        forall|j: int| 0 <= j < e0.len() && j != id ==> e1[j] == e0[j],
        e1[id].name == e0[id].name,
        e1[id].address == e0[id].address,
        recorded_def(n, id, e1[id], k),
    ensures
        defs_state(n, e1, ni, k + 1, o.update(id, k)),
{
    let nv = n.vars@.len();
    let o1 = o.update(id, k);
    assert forall|j: int| 0 <= j < nv implies def_count(n, name_at(n, j), k + 1) == def_count(n, name_at(n, j), k)
        + if j == id {
        1nat
    } else {
        0nat
    } by {
        if j != id {
            if j < id {
            } else {
            }
        }
    }
    assert forall|j: int| 0 <= j < nv implies #[trigger] def_total(n, j, ni, k + 1) <= 1 && (def_total(n, j, ni, k + 1)
        == 0 <==> e1[j].is_empty()) by {
        assert(def_total(n, j, ni, k) <= 1);
        assert(def_total(n, j, ni, k) == 0 <==> e0[j].is_empty());
    }
    assert forall|j: int| 0 <= j < nv && input_count(n, name_at(n, j), ni) == 1 implies recorded_input(n, j, #[trigger] e1[j]) by {
        assert(def_total(n, j, ni, k) <= 1);
        assert(def_total(n, j, ni, k) == 0 <==> e0[j].is_empty());
        assert(recorded_input(n, j, e0[j]));
    }
    assert forall|j: int| 0 <= j < nv && def_count(n, name_at(n, j), k + 1) == 1 implies 0 <= #[trigger] o1[j] < k + 1
        && n.defs@[o1[j]].0@ == name_at(n, j) by {
        assert(def_total(n, j, ni, k) <= 1);
        assert(def_total(n, j, ni, k) == 0 <==> e0[j].is_empty());
        if j != id {
            assert(def_count(n, name_at(n, j), k) == 1);
            assert(0 <= o[j] < k);
        }
    }
    assert forall|j: int| 0 <= j < nv && def_count(n, name_at(n, j), k + 1) == 1 implies recorded_def(
        n,
        j,
        #[trigger] e1[j],
        o1[j],
    ) by {
        assert(def_total(n, j, ni, k) <= 1);
        assert(def_total(n, j, ni, k) == 0 <==> e0[j].is_empty());
        if j != id {
            assert(def_count(n, name_at(n, j), k) == 1);
            assert(recorded_def(n, j, e0[j], o[j]));
        }
    }

}

/// Records every equation as the definition of its variable.
#[verifier::spinoff_prover]
fn record_defs(
    n: &Netlist,
    addrs: &Vec<(usize, u32)>,
    edges: &mut Vec<PartialVarInfo>,
    mem_ops: &mut Vec<MemOp>,
    mems: &mut Vec<MemInfo>,
    Ghost(o): Ghost<Seq<int>>,
) -> (r: Result<Ghost<Seq<int>>, String>)
    requires
        netlist_fits(n),
        names_distinct(n),
        layout_ok(n, addrs@),
        defs_state(n, old(edges)@, n.inputs@.len() as int, 0, o),
        old(mem_ops)@.len() == 0,
        old(mems)@.len() == 0,
    ensures
        r is Err ==> !netlist_valid(n),
        r matches Ok(g) ==> defs_state(n, final(edges)@, n.inputs@.len() as int, n.defs@.len() as int, g@),
        r is Ok ==> mems_state(n, n.defs@.len() as int, final(mem_ops)@, final(mems)@),
        r is Ok ==> forall|k: int| 0 <= k < n.defs@.len() ==> !#[trigger] def_refused(n, k),
        r matches Err(e) ==> exists|k: int|
            0 <= k < n.defs@.len() && #[trigger] def_refused(n, k) && (forall|k2: int| 0 <= k2 < k ==> !def_refused(n, k2))
                && e@ == refusal_message(n, k),
{
    let nv = n.vars.len();
    let ni = n.inputs.len();
    let nd = n.defs.len();
    let ghost mut owner: Seq<int> = o;
    let mut k: usize = 0;
    while k < nd
        invariant
            nv == n.vars@.len(),
            ni == n.inputs@.len(),
            nd == n.defs@.len(),
            k <= nd,
            netlist_fits(n),
            names_distinct(n),
            layout_ok(n, addrs@),
            defs_state(n, edges@, ni as int, k as int, owner),
            mems_state(n, k as int, mem_ops@, mems@),
            forall|q: int| 0 <= q < k ==> !#[trigger] def_refused(n, q),
        decreases nd - k,
    {
        let g = match record_def(n, addrs, edges, mem_ops, mems, k, Ghost(owner)) {
            Ok(g) => g,
            Err(e) => {
                proof {
                    assert(def_refused(n, k as int));
                }
                return Err(e);
            },
        };
        proof {
            owner = g@;
        }
        k = k + 1;
    }
    Ok(Ghost(owner))
}

/// Checks that every variable has been defined, and gives the complete
/// description of each.
#[verifier::spinoff_prover]
fn finish_edges(n: &Netlist, edges: Vec<PartialVarInfo>, Ghost(owner): Ghost<Seq<int>>) -> (r: Result<Vec<VarInfo>, String>)
    requires
        defs_state(n, edges@, n.inputs@.len() as int, n.defs@.len() as int, owner),
    ensures
        r is Err ==> !netlist_valid(n),
        r matches Ok(v) ==> v@.len() == n.vars@.len() && forall|j: int|
            0 <= j < n.vars@.len() ==> edge_of(n, j, #[trigger] v@[j]),
        r is Ok ==> forall|j: int|
            0 <= j < n.vars@.len() ==> def_total(n, j, n.inputs@.len() as int, n.defs@.len() as int) == 1,
        r matches Err(m) ==> exists|i: int|
            0 <= i < n.vars@.len() && #[trigger] def_total(n, i, n.inputs@.len() as int, n.defs@.len() as int) == 0
                && (forall|i2: int| 0 <= i2 < i ==> def_total(n, i2, n.inputs@.len() as int, n.defs@.len() as int) != 0)
                && m@ == undefined_message(name_at(n, i)),
{
    let nv = n.vars.len();
    let ni = n.inputs.len();
    let nd = n.defs.len();
    let ghost fin = edges@;
    let mut edges = edges;
    let mut pending: Vec<PartialVarInfo> = Vec::new();
    while edges.len() > 0
        invariant
            fin.len() == nv,
            edges@ == fin.take(edges@.len() as int),
            edges@.len() + pending@.len() == nv,
            forall|p: int| 0 <= p < pending@.len() ==> #[trigger] pending@[p] == fin[nv - 1 - p],
        decreases edges.len(),
    {
        let e = edges.pop().unwrap();
        pending.push(e);
        assert(edges@ == fin.take(edges@.len() as int));
    }
    let mut validated: Vec<VarInfo> = Vec::new();
    let mut i: usize = 0;
    while i < nv
        invariant
            nv == n.vars@.len(),
            ni == n.inputs@.len(),
            nd == n.defs@.len(),
            i <= nv,
            fin.len() == nv,
            pending@.len() == nv - i,
            forall|p: int| 0 <= p < pending@.len() ==> #[trigger] pending@[p] == fin[nv - 1 - p],
            validated@.len() == i,
            defs_state(n, fin, ni as int, nd as int, owner),
            forall|j: int| 0 <= j < i ==> edge_of(n, j, #[trigger] validated@[j]),
            forall|j: int| 0 <= j < i ==> def_total(n, j, ni as int, nd as int) == 1,
        decreases nv - i,
    {
        let e = pending.pop().unwrap();
        assert(e == fin[i as int]);
        match e.validate() {
            Ok(v) => {
                proof {
                    let j = i as int;
                    let nm = name_at(n, j);
                    if input_count(n, nm, ni as int) == 0 {
                        lemma_def_unique(n, nm, owner[j]);
                    }
                }
                validated.push(v);
            },
            Err(m) => {
                proof {
                    let j = i as int;
                    assert(def_total(n, j, ni as int, nd as int) == 0);
                    assert(m@ == undefined_message(name_at(n, j)));
                }
                return Err(m);
            },
        }
        i = i + 1;
    }
    Ok(validated)
}

/// Builds the dependency graph of a netlist: every variable gets an
/// address, every equation is checked and translated to the operation
/// that computes its variable, and memory operations are collected.
/// Fails exactly on invalid netlists.
pub fn build_graph(netlist: Netlist) -> (r: Result<OpsGraph, String>)
    requires
        netlist_fits(&netlist),
    ensures
        r is Ok <==> netlist_valid(&netlist),
        r matches Ok(g) ==> graph_of(&netlist, &g),
        r matches Err(e) ==> graph_error(&netlist, e@),
        r matches Ok(g) ==> deps_in_range(dep_graph(g.edges@)),
{
    let n = &netlist;
    let (addrs, mem_size) = match layout(n) {
        Ok(x) => x,
        Err(e) => {
            return Err(e);
        },
    };
    proof {
        lemma_none_redeclared(n);
    }
    let mut edges = fresh_edges(n, &addrs);
    let ghost o = Seq::new(n.vars@.len(), |j: int| -1int);
    match record_inputs(n, &addrs, &mut edges, Ghost(o)) {
        Ok(()) => {},
        Err(e) => {
            return Err(e);
        },
    }
    match check_outputs(n) {
        Ok(()) => {},
        Err(e) => {
            return Err(e);
        },
    }
    let inputs = io_list(n, &addrs, &n.inputs);
    let outputs = io_list(n, &addrs, &n.outputs);
    let mut mem_ops: Vec<MemOp> = Vec::new();
    let mut mems: Vec<MemInfo> = Vec::new();
    let owner = match record_defs(n, &addrs, &mut edges, &mut mem_ops, &mut mems, Ghost(o)) {
        Ok(g) => g,
        Err(e) => {
            return Err(e);
        },
    };
    let validated = match finish_edges(n, edges, owner) {
        Ok(v) => v,
        Err(e) => {
            return Err(e);
        },
    };
    assert forall|i: int| 0 <= i < n.vars@.len() implies input_count(n, name_at(n, i), n.inputs@.len() as int)
        + def_count(n, name_at(n, i), n.defs@.len() as int) == 1 by {
        assert(def_total(n, i, n.inputs@.len() as int, n.defs@.len() as int) == 1);
    }
    let g = OpsGraph { mem_size, inputs, outputs, mems, edges: validated, mem_ops };
    proof {
        lemma_graph_deps_in_range(n, &g);
    }
    Ok(g)
}

/// The variables an operand depends on are declared.
proof fn lemma_arg_dep_in_range(n: &Netlist, a: Arg)
    ensures
        forall|j: int| 0 <= j < arg_dep(n, a).len() ==> #[trigger] arg_dep(n, a)[j] < n.vars@.len(),
{
    if let Arg::Var(name) = a {
        lemma_lookup_in_range(n, name@);
    }
}

/// Two lists of declared variables, one after the other.
proof fn lemma_cat_in_range(a: Seq<usize>, b: Seq<usize>, m: nat)
    requires
        forall|j: int| 0 <= j < a.len() ==> #[trigger] a[j] < m,
        forall|j: int| 0 <= j < b.len() ==> #[trigger] b[j] < m,
    ensures
        forall|j: int| 0 <= j < (a + b).len() ==> #[trigger] (a + b)[j] < m,
{
    assert forall|j: int| 0 <= j < (a + b).len() implies #[trigger] (a + b)[j] < m by {
        if j < a.len() {
            assert((a + b)[j] == a[j]);
        } else {
            assert((a + b)[j] == b[j - a.len()]);
        }
    }
}

/// The variables an equation depends on are declared.
proof fn lemma_def_deps_in_range(n: &Netlist, def: Def)
    ensures
        forall|j: int| 0 <= j < def_deps(n, def).len() ==> #[trigger] def_deps(n, def)[j] < n.vars@.len(),
{
    reveal(def_deps);
    let m = n.vars@.len();
    match def {
        Def::Fwd(a) => {
            lemma_arg_dep_in_range(n, a);
            assert(def_deps(n, def) == arg_dep(n, a));
        },
        Def::Not(a) => {
            lemma_arg_dep_in_range(n, a);
            assert(def_deps(n, def) == arg_dep(n, a));
        },
        Def::Select(_, a) => {
            lemma_arg_dep_in_range(n, a);
            assert(def_deps(n, def) == arg_dep(n, a));
        },
        Def::Slice(_, _, a) => {
            lemma_arg_dep_in_range(n, a);
            assert(def_deps(n, def) == arg_dep(n, a));
        },
        Def::Bin(_, l, r) => {
            lemma_arg_dep_in_range(n, l);
            lemma_arg_dep_in_range(n, r);
            lemma_cat_in_range(arg_dep(n, l), arg_dep(n, r), m);
            assert(def_deps(n, def) == arg_dep(n, l) + arg_dep(n, r));
        },
        Def::Concat(l, r) => {
            lemma_arg_dep_in_range(n, l);
            lemma_arg_dep_in_range(n, r);
            lemma_cat_in_range(arg_dep(n, l), arg_dep(n, r), m);
            assert(def_deps(n, def) == arg_dep(n, l) + arg_dep(n, r));
        },
        Def::Mux(x, l, r) => {
            lemma_arg_dep_in_range(n, x);
            lemma_arg_dep_in_range(n, l);
            lemma_arg_dep_in_range(n, r);
            lemma_cat_in_range(arg_dep(n, x), arg_dep(n, l), m);
            lemma_cat_in_range(arg_dep(n, x) + arg_dep(n, l), arg_dep(n, r), m);
            assert(def_deps(n, def) == arg_dep(n, x) + arg_dep(n, l) + arg_dep(n, r));
        },
        _ => {},
    }
}

/// Every dependency of a graph built from a netlist names one of its edges.
proof fn lemma_graph_deps_in_range(n: &Netlist, g: &OpsGraph)
    requires
        graph_of(n, g),
    ensures
        deps_in_range(dep_graph(g.edges@)),
{
    let d = dep_graph(g.edges@);
    assert forall|i: int, j: int| 0 <= i < d.len() && 0 <= j < d[i].len() implies #[trigger] d[i][j] < d.len() by {
        assert(edge_of(n, i, g.edges@[i]));
        if input_count(n, name_at(n, i), n.inputs@.len() as int) == 0 {
            lemma_def_deps_in_range(n, n.defs@[def_index(n, name_at(n, i))].1);
        }
    }
}

/// Names that are all distinct repeat no earlier one.
proof fn lemma_none_redeclared(n: &Netlist)
    requires
        names_distinct(n),
    ensures
        forall|i: int| 0 <= i < n.vars@.len() ==> !#[trigger] declared_before(n, i),
{
    assert forall|i: int| 0 <= i < n.vars@.len() implies !#[trigger] declared_before(n, i) by {
        if declared_before(n, i) {
            let w = choose|w: int| 0 <= w < i && name_at(n, w) == name_at(n, i);
            assert(name_at(n, w) != name_at(n, i));
        }
    }
}

/// The list of buses (length, address, name) named by `names`, all declared.
fn io_list(n: &Netlist, addrs: &Vec<(usize, u32)>, names: &Vec<String>) -> (r: Vec<(u32, usize, String)>)
    requires
        layout_ok(n, addrs@),
        forall|q: int| 0 <= q < names@.len() ==> lookup(n, #[trigger] names@[q]@) is Some,
    ensures
        r@.len() == names@.len(),
        forall|q: int|
            0 <= q < names@.len() ==> (r@[q].0, r@[q].1, r@[q].2@) == io_entry(n, #[trigger] names@[q]),
{
    let mut r: Vec<(u32, usize, String)> = Vec::new();
    let mut q: usize = 0;
    while q < names.len()
        invariant
            layout_ok(n, addrs@),
            forall|q: int| 0 <= q < names@.len() ==> lookup(n, #[trigger] names@[q]@) is Some,
            q <= names@.len(),
            r@.len() == q,
            forall|p: int| 0 <= p < q ==> (r@[p].0, r@[p].1, r@[p].2@) == io_entry(n, #[trigger] names@[p]),
        decreases names.len() - q,
    {
        assert(lookup(n, names@[q as int]@) is Some);
        match find_var(n, names[q].as_str()) {
            Some(id) => {
                proof {
                    lemma_lookup_in_range(n, names@[q as int]@);
                }
                r.push((addrs[id].1, addrs[id].0, names[q].clone()));
            },
            None => {},
        }
        q = q + 1;
    }
    r
}

proof fn lemma_mem_ops_before_mono(n: &Netlist, a: int, b: int)
    requires
        0 <= a <= b,
    ensures
        mem_ops_before(n, a) <= mem_ops_before(n, b),
    decreases b,
{
    if a < b {
        lemma_mem_ops_before_mono(n, a, b - 1);
    }
}

proof fn lemma_mems_before_mono(n: &Netlist, a: int, b: int)
    requires
        0 <= a <= b,
    ensures
        mems_before(n, a) <= mems_before(n, b),
    decreases b,
{
    if a < b {
        lemma_mems_before_mono(n, a, b - 1);
    }
}

} // verus!
