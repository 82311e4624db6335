use vstd::prelude::*;

use super::build_graph::{addr_at, consts_fit, def_fits, len_at, netlist_fits, total_len, two_pow};
use super::netlist::{Arg, Def, Netlist, Value, ValueType};
use super::runner::{arg_in_bounds, def_in_bounds, mem_op_in_bounds, mems_fit};
use super::testbench::simulable;
use super::types::{MemOp, OpArg, OpsList, VarDef};

verus! {

/// Whether `n` bits from the operand `a` lie in a memory of `mem_len` bits.
fn arg_fits(mem_len: usize, a: &OpArg, n: u64) -> (r: bool)
    ensures
        r == arg_in_bounds(mem_len as nat, a@, n as nat),
{
    match a {
        OpArg::Var(addr) => (*addr as u128) + (n as u128) <= (mem_len as u128),
        OpArg::Cst(v) => (n as u128) <= (v.len() as u128),
    }
}

/// Whether the operation writing at `out` reads and writes inside a
/// memory of `mem_len` bits.
fn def_fits_in(mem_len: usize, out: usize, d: &VarDef) -> (r: bool)
    ensures
        r == def_in_bounds(mem_len as nat, out as nat, d@),
{
    let m = mem_len as u128;
    let o = out as u128;
    match d {
        VarDef::Input | VarDef::Mem => true,
        VarDef::Fwd(len, a) | VarDef::Not(len, a) => o + (*len as u128) <= m && arg_fits(mem_len, a, *len as u64),
        VarDef::BinOp(_, len, l, r) => o + (*len as u128) <= m && arg_fits(mem_len, l, *len as u64) && arg_fits(
            mem_len,
            r,
            *len as u64,
        ),
        VarDef::Mux(s, l, r) => o < m && arg_fits(mem_len, s, 1) && arg_fits(mem_len, l, 1) && arg_fits(mem_len, r, 1),
        VarDef::Select(index, a) => o < m && arg_fits(mem_len, a, *index as u64 + 1),
        VarDef::Slice(start, end, a) => *start <= *end && o + ((*end - *start) as u128) + 1 <= m && arg_fits(
            mem_len,
            a,
            *end as u64 + 1,
        ),
        VarDef::Concat(l_len, l, r_len, r) => o + (*l_len as u128) + (*r_len as u128) <= m && arg_fits(
            mem_len,
            l,
            *l_len as u64,
        ) && arg_fits(mem_len, r, *r_len as u64),
    }
}

/// Whether `2^k` fits in a machine word and equals `size`.
fn is_two_pow(k: u32, size: usize) -> (r: bool)
    ensures
        r == (two_pow(k as nat) <= usize::MAX && size == two_pow(k as nat)),
{
    match two_pow_value(k) {
        Some(p) => size == p,
        None => false,
    }
}

proof fn lemma_two_pow_grows(a: nat, b: nat)
    requires
        a <= b,
    ensures
        two_pow(a) <= two_pow(b),
    decreases b,
{
    if a < b {
        lemma_two_pow_grows(a, (b - 1) as nat);
    }
}

/// Whether the memory operation reads and writes inside the memories of
/// `ops`.
fn mem_op_fits(ops: &OpsList, op: &MemOp) -> (r: bool)
    ensures
        r == mem_op_in_bounds(ops, op@),
{
    let ms = ops.mem_size;
    let m = ms as u128;
    match op {
        MemOp::Reg(r) => (r.input as u128) + (r.data_len as u128) <= m && (r.output as u128) + (r.data_len as u128) <= m,
        MemOp::Ram(r) => {
            r.mem_id < ops.mems.len() && is_two_pow(r.address_size, ops.mems[r.mem_id].size)
                && ops.mems[r.mem_id].word_length == r.word_size && (r.address_size == 0 || arg_fits(
                ms,
                &r.read_address,
                1,
            )) && arg_fits(ms, &r.write_enable, 1) && (r.address_size == 0 || arg_fits(ms, &r.write_address, 1))
                && arg_fits(ms, &r.data, r.word_size as u64) && (r.output as u128) + (r.word_size as u128) <= m
        },
        MemOp::Rom(r) => {
            r.mem_id < ops.mems.len() && is_two_pow(r.address_size, ops.mems[r.mem_id].size)
                && ops.mems[r.mem_id].word_length == r.word_size && (r.address_size == 0 || arg_fits(
                ms,
                &r.read_address,
                1,
            )) && (r.output as u128) + (r.word_size as u128) <= m
        },
    }
}

/// Whether the memories of `ops` can be allocated.
pub fn memories_fit(ops: &OpsList) -> (r: bool)
    ensures
        r == mems_fit(ops),
{
    let mut k: usize = 0;
    while k < ops.mems.len()
        invariant
            k <= ops.mems@.len(),
            forall|q: int| 0 <= q < k ==> (#[trigger] ops.mems@[q]).word_length * ops.mems@[q].size <= usize::MAX,
        decreases ops.mems.len() - k,
    {
        let w = ops.mems[k].word_length as u128;
        let s = ops.mems[k].size as u128;
        assert(w * s <= 0xffff_ffffu128 * 0xffff_ffff_ffff_ffffu128) by (nonlinear_arith)
            requires
                w <= 0xffff_ffffu128,
                s <= 0xffff_ffff_ffff_ffffu128,
        ;
        if w * s > usize::MAX as u128 {
            return false;
        }
        k = k + 1;
    }
    true
}

/// Whether every operation, memory operation, input and output of `ops`
/// lies inside the simulation memory and the memories can be allocated:
/// what running `ops` asks.
pub fn is_simulable(ops: &OpsList) -> (r: bool)
    ensures
        r == simulable(ops),
{
    if !memories_fit(ops) {
        return false;
    }
    let ms = ops.mem_size;
    let mut k: usize = 0;
    while k < ops.ops.len()
        invariant
            k <= ops.ops@.len(),
            ms == ops.mem_size,
            forall|q: int| 0 <= q < k ==> def_in_bounds(ms as nat, (#[trigger] ops.ops@[q]).0 as nat, ops.ops@[q].1@),
        decreases ops.ops.len() - k,
    {
        if !def_fits_in(ms, ops.ops[k].0, &ops.ops[k].1) {
            return false;
        }
        k = k + 1;
    }
    let mut k: usize = 0;
    while k < ops.mem_ops.len()
        invariant
            k <= ops.mem_ops@.len(),
            forall|q: int| 0 <= q < k ==> mem_op_in_bounds(ops, (#[trigger] ops.mem_ops@[q])@),
        decreases ops.mem_ops.len() - k,
    {
        if !mem_op_fits(ops, &ops.mem_ops[k]) {
            return false;
        }
        k = k + 1;
    }
    let mut k: usize = 0;
    while k < ops.inputs.len()
        invariant
            k <= ops.inputs@.len(),
            forall|q: int| 0 <= q < k ==> (#[trigger] ops.inputs@[q]).1 + ops.inputs@[q].0 <= ops.mem_size,
        decreases ops.inputs.len() - k,
    {
        if (ops.inputs[k].1 as u128) + (ops.inputs[k].0 as u128) > ops.mem_size as u128 {
            return false;
        }
        k = k + 1;
    }
    let mut k: usize = 0;
    while k < ops.outputs.len()
        invariant
            k <= ops.outputs@.len(),
            forall|q: int| 0 <= q < k ==> (#[trigger] ops.outputs@[q]).1 + ops.outputs@[q].0 <= ops.mem_size,
        decreases ops.outputs.len() - k,
    {
        if (ops.outputs[k].1 as u128) + (ops.outputs[k].0 as u128) > ops.mem_size as u128 {
            return false;
        }
        k = k + 1;
    }
    true
}

/// Whether a constant operand has at most `u32::MAX` bits.
fn const_fits(a: &Arg) -> (r: bool)
    ensures
        r == consts_fit(*a),
{
    match a {
        Arg::Const(Value::BitArray(v)) => v.len() as u128 <= 0xffff_ffffu128,
        _ => true,
    }
}

/// Whether one equation keeps to the machine limits.
fn def_keeps_limits(d: &Def) -> (r: bool)
    ensures
        r == def_fits(*d),
{
    match d {
        Def::Ram(x) => two_pow_value(x.address_size).is_some() && const_fits(&x.read_address) && const_fits(&x.write_enable)
            && const_fits(&x.write_address) && const_fits(&x.data),
        Def::Rom(x) => two_pow_value(x.address_size).is_some() && const_fits(&x.read_address),
        Def::Fwd(a) | Def::Not(a) | Def::Select(_, a) | Def::Slice(_, _, a) => const_fits(a),
        Def::Bin(_, a, b) | Def::Concat(a, b) => const_fits(a) && const_fits(b),
        Def::Mux(a, b, c) => const_fits(a) && const_fits(b) && const_fits(c),
        Def::Reg(_) => true,
    }
}

/// `2^k`, where it fits in a machine word.
fn two_pow_value(k: u32) -> (r: Option<usize>)
    ensures
        r is Some <==> two_pow(k as nat) <= usize::MAX,
        r matches Some(p) ==> p == two_pow(k as nat),
{
    let mut p: usize = 1;
    let mut i: u32 = 0;
    while i < k
        invariant
            i <= k,
            p == two_pow(i as nat),
        decreases k - i,
    {
        if p > usize::MAX / 2 {
            proof {
                lemma_two_pow_grows(i as nat + 1, k as nat);
            }
            return None;
        }
        p = 2 * p;
        i = i + 1;
    }
    Some(p)
}

/// Whether a netlist keeps to the machine limits under which it can be
/// laid out: what building its graph asks.
pub fn netlist_keeps_limits(n: &Netlist) -> (r: bool)
    ensures
        r == netlist_fits(n),
{
    let mut total: u128 = 0;
    let mut i: usize = 0;
    while i < n.vars.len()
        invariant
            i <= n.vars@.len(),
            total == addr_at(n, i as int),
            total <= usize::MAX,
        decreases n.vars.len() - i,
    {
        let l: u128 = match &n.vars[i].1 {
            ValueType::Bit => 1,
            ValueType::BitArray(k) => *k as u128,
        };
        assert(l == len_at(n, i as int));
        if total + l > usize::MAX as u128 {
            proof {
                lemma_addr_grows(n, i as int + 1, n.vars@.len() as int);
            }
            return false;
        }
        total = total + l;
        i = i + 1;
    }
    let mut k: usize = 0;
    while k < n.defs.len()
        invariant
            k <= n.defs@.len(),
            total_len(n) <= usize::MAX,
            forall|q: int| 0 <= q < k ==> def_fits(#[trigger] n.defs@[q].1),
        decreases n.defs.len() - k,
    {
        if !def_keeps_limits(&n.defs[k].1) {
            return false;
        }
        k = k + 1;
    }
    true
}

proof fn lemma_addr_grows(n: &Netlist, a: int, b: int)
    requires
        0 <= a <= b,
    ensures
        addr_at(n, a) <= addr_at(n, b),
    decreases b,
{
    if a < b {
        lemma_addr_grows(n, a, b - 1);
    }
}

} // verus!
