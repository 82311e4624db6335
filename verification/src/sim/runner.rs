use vstd::prelude::*;

use super::build_graph::{bin_op_of, two_pow, MemOpView, VarDefView};
use super::netlist::BinOpType;
use super::types::{BinOp, MemInfo, MemOp, OpArg, OpArgView, OpsList, VarDef};

verus! {

// ---------------------------------------------------------------------
// The semantics of one tick.
// ---------------------------------------------------------------------

/// The `off`-th bit of an operand in memory `mem`.
pub open spec fn bit_of(mem: Seq<bool>, a: OpArgView, off: int) -> bool {
    match a {
        OpArgView::Var(addr) => mem[addr + off],
        OpArgView::Cst(v) => v[off],
    }
}

/// Writes the bits `f(m, 0)`, ..., `f(m, n - 1)` at `out`, one after the
/// other, each computed on the memory as it stands when it is written.
pub open spec fn write_bits(mem: Seq<bool>, out: int, n: nat, f: spec_fn(Seq<bool>, int) -> bool) -> Seq<bool>
    decreases n,
{
    if n == 0 {
        mem
    } else {
        let m = write_bits(mem, out, (n - 1) as nat, f);
        m.update(out + n - 1, f(m, n - 1))
    }
}

pub open spec fn bin_op_value(op: BinOp, l: bool, r: bool) -> bool {
    match op {
        BinOp::Or => l || r,
        BinOp::Xor => l != r,
        BinOp::And => l && r,
        BinOp::Nand => !(l && r),
    }
}

/// Bit `i` is bit `shift + i` of the operand.
pub open spec fn fwd_bit(a: OpArgView, shift: int) -> spec_fn(Seq<bool>, int) -> bool {
    |m: Seq<bool>, i: int| bit_of(m, a, shift + i)
}

/// Bit `i` is the negation of bit `i` of the operand.
pub open spec fn not_bit(a: OpArgView) -> spec_fn(Seq<bool>, int) -> bool {
    |m: Seq<bool>, i: int| !bit_of(m, a, i)
}

/// Bit `i` combines bits `i` of both operands.
pub open spec fn bin_bit(op: BinOp, l: OpArgView, r: OpArgView) -> spec_fn(Seq<bool>, int) -> bool {
    |m: Seq<bool>, i: int| bin_op_value(op, bit_of(m, l, i), bit_of(m, r, i))
}

/// The memory after computing the variable at `out` as `def` says.
pub open spec fn apply_def(mem: Seq<bool>, out: int, def: VarDefView) -> Seq<bool> {
    match def {
        VarDefView::Input | VarDefView::Mem => mem,
        VarDefView::Fwd(len, a) => write_bits(mem, out, len as nat, fwd_bit(a, 0)),
        VarDefView::Not(len, a) => write_bits(mem, out, len as nat, not_bit(a)),
        VarDefView::BinOp(op, len, l, r) => write_bits(mem, out, len as nat, bin_bit(op, l, r)),
        VarDefView::Mux(s, l, r) => mem.update(
            out,
            if !bit_of(mem, s, 0) {
                bit_of(mem, l, 0)
            } else {
                bit_of(mem, r, 0)
            },
        ),
        VarDefView::Select(index, a) => mem.update(out, bit_of(mem, a, index as int)),
        VarDefView::Slice(start, end, a) => write_bits(mem, out, (end - start + 1) as nat, fwd_bit(a, start as int)),
        VarDefView::Concat(l_len, l, r_len, r) => write_bits(
            write_bits(mem, out, l_len as nat, fwd_bit(l, 0)),
            out + l_len,
            r_len as nat,
            fwd_bit(r, 0),
        ),
    }
}

/// The memory after computing the first `k` operations in order.
pub open spec fn apply_ops(mem: Seq<bool>, ops: Seq<(usize, VarDef)>, k: int) -> Seq<bool>
    decreases k,
{
    if k <= 0 {
        mem
    } else {
        apply_def(apply_ops(mem, ops, k - 1), ops[k - 1].0 as int, ops[k - 1].1@)
    }
}

/// The bits an operand covers fit in the memory.
pub open spec fn arg_in_bounds(mem_len: nat, a: OpArgView, n: nat) -> bool {
    match a {
        OpArgView::Var(addr) => addr + n <= mem_len,
        OpArgView::Cst(v) => n <= v.len(),
    }
}

/// Every bit an operation reads or writes lies in memory.
pub open spec fn def_in_bounds(mem_len: nat, out: nat, def: VarDefView) -> bool {
    match def {
        VarDefView::Input | VarDefView::Mem => true,
        VarDefView::Fwd(len, a) | VarDefView::Not(len, a) => out + len <= mem_len && arg_in_bounds(mem_len, a, len as nat),
        VarDefView::BinOp(_, len, l, r) => out + len <= mem_len && arg_in_bounds(mem_len, l, len as nat)
            && arg_in_bounds(mem_len, r, len as nat),
        VarDefView::Mux(s, l, r) => out < mem_len && arg_in_bounds(mem_len, s, 1) && arg_in_bounds(mem_len, l, 1)
            && arg_in_bounds(mem_len, r, 1),
        VarDefView::Select(index, a) => out < mem_len && arg_in_bounds(mem_len, a, index as nat + 1),
        VarDefView::Slice(start, end, a) => start <= end && out + (end - start + 1) <= mem_len && arg_in_bounds(
            mem_len,
            a,
            end as nat + 1,
        ),
        VarDefView::Concat(l_len, l, r_len, r) => out + l_len + r_len <= mem_len && arg_in_bounds(
            mem_len,
            l,
            l_len as nat,
        ) && arg_in_bounds(mem_len, r, r_len as nat),
    }
}

/// The address that a memory operation reads from an operand of `len`
/// bits: each of the `len` steps doubles the address and adds the first
/// bit of the operand.
pub open spec fn address_of(mem: Seq<bool>, a: OpArgView, len: nat) -> nat {
    if bit_of(mem, a, 0) {
        (two_pow(len) - 1) as nat
    } else {
        0
    }
}

/// The contents of an auxiliary memory: its word size and its bits.
pub struct AuxView {
    pub word_size: nat,
    pub bits: Seq<bool>,
}

/// The word at `address`.
pub open spec fn aux_read(a: AuxView, address: nat) -> Seq<bool> {
    a.bits.subrange((address * a.word_size) as int, (address * a.word_size + a.word_size) as int)
}

/// The memory after writing `data` at `address`.
pub open spec fn aux_write(a: AuxView, address: nat, data: Seq<bool>) -> AuxView {
    AuxView {
        word_size: a.word_size,
        bits: Seq::new(
            a.bits.len(),
            |j: int|
                if address * a.word_size <= j < address * a.word_size + data.len() {
                    data[j - address * a.word_size]
                } else {
                    a.bits[j]
                },
        ),
    }
}

/// The bits `[0, n)` of an operand.
pub open spec fn arg_bits(mem: Seq<bool>, a: OpArgView, n: nat) -> Seq<bool> {
    Seq::new(n, |i: int| bit_of(mem, a, i))
}

/// The writes to the simulation memory that a memory operation performs
/// at the start of a tick (reading the memory as it was before the tick).
pub open spec fn mem_op_writes(mem: Seq<bool>, auxs: Seq<AuxView>, op: MemOpView) -> Seq<(int, bool)> {
    match op {
        MemOpView::Reg(len, input, output) => Seq::new(len as nat, |i: int| (output + i, mem[input + i])),
        MemOpView::Ram(mem_id, asz, wsz, ra, _, _, _, output) => {
            let word = aux_read(auxs[mem_id as int], address_of(mem, ra, asz as nat));
            Seq::new(wsz as nat, |i: int| (output + i, word[i]))
        },
        MemOpView::Rom(mem_id, asz, wsz, ra, output) => {
            let word = aux_read(auxs[mem_id as int], address_of(mem, ra, asz as nat));
            Seq::new(wsz as nat, |i: int| (output + i, word[i]))
        },
    }
}

/// The write to an auxiliary memory that a memory operation performs, if
/// any: its memory, address and word.
pub open spec fn mem_op_aux_write(mem: Seq<bool>, op: MemOpView) -> Option<(nat, nat, Seq<bool>)> {
    match op {
        MemOpView::Ram(mem_id, asz, wsz, _, we, wa, data, _) => if bit_of(mem, we, 0) {
            Some((mem_id as nat, address_of(mem, wa, asz as nat), arg_bits(mem, data, wsz as nat)))
        } else {
            None
        },
        _ => None,
    }
}

/// All writes to the simulation memory of the first `k` memory operations.
pub open spec fn all_writes(mem: Seq<bool>, auxs: Seq<AuxView>, ops: Seq<MemOp>, k: int) -> Seq<(int, bool)>
    decreases k,
{
    if k <= 0 {
        seq![]
    } else {
        all_writes(mem, auxs, ops, k - 1) + mem_op_writes(mem, auxs, ops[k - 1]@)
    }
}

/// The writes to auxiliary memories that a memory operation performs.
pub open spec fn mem_op_aux_writes(mem: Seq<bool>, op: MemOpView) -> Seq<(nat, nat, Seq<bool>)> {
    match mem_op_aux_write(mem, op) {
        Some(w) => seq![w],
        None => seq![],
    }
}

/// All writes to auxiliary memories of the first `k` memory operations.
pub open spec fn all_aux_writes(mem: Seq<bool>, ops: Seq<MemOp>, k: int) -> Seq<(nat, nat, Seq<bool>)>
    decreases k,
{
    if k <= 0 {
        seq![]
    } else {
        all_aux_writes(mem, ops, k - 1) + mem_op_aux_writes(mem, ops[k - 1]@)
    }
}

/// The memory after performing the writes in order.
pub open spec fn apply_writes(mem: Seq<bool>, w: Seq<(int, bool)>) -> Seq<bool>
    decreases w.len(),
{
    if w.len() == 0 {
        mem
    } else {
        apply_writes(mem, w.drop_last()).update(w.last().0, w.last().1)
    }
}

/// The auxiliary memories after performing the writes in order.
pub open spec fn apply_aux_writes(auxs: Seq<AuxView>, w: Seq<(nat, nat, Seq<bool>)>) -> Seq<AuxView>
    decreases w.len(),
{
    if w.len() == 0 {
        auxs
    } else {
        let a = apply_aux_writes(auxs, w.drop_last());
        let (id, addr, data) = w.last();
        a.update(id as int, aux_write(a[id as int], addr, data))
    }
}

} // verus!

verus! {

proof fn lemma_write_bits_len(mem: Seq<bool>, out: int, n: nat, f: spec_fn(Seq<bool>, int) -> bool)
    requires
        0 <= out,
        out + n <= mem.len(),
    ensures
        write_bits(mem, out, n, f).len() == mem.len(),
    decreases n,
{
    if n > 0 {
        lemma_write_bits_len(mem, out, (n - 1) as nat, f);
    }
}

proof fn lemma_apply_def_len(mem: Seq<bool>, out: int, def: VarDefView)
    requires
        0 <= out,
        def_in_bounds(mem.len(), out as nat, def),
    ensures
        apply_def(mem, out, def).len() == mem.len(),
{
    match def {
        VarDefView::Fwd(len, a) => lemma_write_bits_len(mem, out, len as nat, fwd_bit(a, 0)),
        VarDefView::Not(len, a) => lemma_write_bits_len(mem, out, len as nat, not_bit(a)),
        VarDefView::BinOp(op, len, l, r) => lemma_write_bits_len(mem, out, len as nat, bin_bit(op, l, r)),
        VarDefView::Slice(start, end, a) => lemma_write_bits_len(mem, out, (end - start + 1) as nat, fwd_bit(a, start as int)),
        VarDefView::Concat(l_len, l, r_len, r) => {
            lemma_write_bits_len(mem, out, l_len as nat, fwd_bit(l, 0));
            lemma_write_bits_len(write_bits(mem, out, l_len as nat, fwd_bit(l, 0)), out + l_len, r_len as nat, fwd_bit(r, 0));
        },
        _ => {},
    }
}

/// An auxiliary memory (RAM or ROM), as a vector of words.
struct AuxMem {
    word_size: u32,
    mem: Vec<bool>,
}

impl View for AuxMem {
    type V = AuxView;

    closed spec fn view(&self) -> AuxView {
        AuxView { word_size: self.word_size as nat, bits: self.mem@ }
    }
}

impl AuxMem {
    /// A memory of `size` words, all zero.
    fn new(size: usize, word_size: u32) -> (r: Self)
        requires
            word_size * size <= usize::MAX,
        ensures
            r@ == (AuxView { word_size: word_size as nat, bits: Seq::new((word_size * size) as nat, |j: int| false) }),
    {
        let n = word_size as usize * size;
        let mut mem: Vec<bool> = Vec::new();
        let mut i: usize = 0;
        while i < n
            invariant
                i <= n,
                mem@ == Seq::new(i as nat, |j: int| false),
            decreases n - i,
        {
            mem.push(false);
            i = i + 1;
        }
        AuxMem { word_size, mem }
    }

    /// The word at `address`.
    fn read(&self, address: usize) -> (r: Vec<bool>)
        requires
            address * self.word_size + self.word_size <= self.mem@.len(),
        ensures
            r@ == aux_read(self@, address as nat),
    {
        let ws = self.word_size as usize;
        let total = self.mem.len();
        assert(address * ws <= self.mem@.len()) by (nonlinear_arith)
            requires
                address * self.word_size + self.word_size <= self.mem@.len(),
                ws == self.word_size,
        ;
        let base = address * ws;
        let mut r: Vec<bool> = Vec::new();
        let mut i: u32 = 0;
        while i < self.word_size
            invariant
                base == address * self.word_size,
                total == self.mem@.len(),
                base + self.word_size <= self.mem@.len(),
                i <= self.word_size,
                r@ == self.mem@.subrange(base as int, base + i),
            decreases self.word_size - i,
        {
            r.push(self.mem[base + i as usize]);
            i = i + 1;
            assert(r@ =~= self.mem@.subrange(base as int, base + i));
        }
        r
    }

    /// Writes `data` at `address`.
    fn write(&mut self, address: usize, data: &Vec<bool>)
        requires
            address * old(self).word_size + data@.len() <= old(self).mem@.len(),
        ensures
            final(self)@ == aux_write(old(self)@, address as nat, data@),
    {
        let ws = self.word_size as usize;
        let total = self.mem.len();
        assert(address * ws <= self.mem@.len()) by (nonlinear_arith)
            requires
                address * self.word_size + data@.len() <= self.mem@.len(),
                ws == self.word_size,
        ;
        let base = address * ws;
        let mut i: usize = 0;
        while i < data.len()
            invariant
                self.word_size == old(self).word_size,
                base == address * self.word_size,
                total == self.mem@.len(),
                base + data@.len() <= self.mem@.len(),
                self.mem@.len() == old(self).mem@.len(),
                i <= data@.len(),
                forall|j: int|
                    0 <= j < self.mem@.len() ==> #[trigger] self.mem@[j] == if base <= j < base + i {
                        data@[j - base]
                    } else {
                        old(self).mem@[j]
                    },
            decreases data.len() - i,
        {
            self.mem[base + i] = data[i];
            i = i + 1;
        }
        assert(self@.bits =~= aux_write(old(self)@, address as nat, data@).bits);
    }
}

/// An input bus of the simulated circuit.
pub struct InputInfo<'a> {
    name: &'a str,
    len: u32,
    address: usize,
}

impl<'a> InputInfo<'a> {
    fn new(name: &'a str, len: u32, address: usize) -> (r: Self)
        ensures
            r.spec_name() == name@,
            r.spec_len() == len,
            r.spec_address() == address,
    {
        InputInfo { name, len, address }
    }

    pub closed spec fn spec_name(&self) -> Seq<char> {
        self.name@
    }

    pub closed spec fn spec_len(&self) -> nat {
        self.len as nat
    }

    pub closed spec fn spec_address(&self) -> nat {
        self.address as nat
    }

    /// The name of the input.
    pub fn name(&self) -> (r: &'a str)
        ensures
            r@ == self.spec_name(),
    {
        self.name
    }

    /// The number of bits of the input.
    pub fn len(&self) -> (r: u32)
        ensures
            r == self.spec_len(),
    {
        self.len
    }
}

/// An output bus of the simulated circuit.
pub struct OutputInfo<'a> {
    name: &'a str,
    len: u32,
    address: usize,
}

impl<'a> OutputInfo<'a> {
    fn new(name: &'a str, len: u32, address: usize) -> (r: Self)
        ensures
            r.spec_name() == name@,
            r.spec_len() == len,
            r.spec_address() == address,
    {
        OutputInfo { name, len, address }
    }

    pub closed spec fn spec_name(&self) -> Seq<char> {
        self.name@
    }

    pub closed spec fn spec_len(&self) -> nat {
        self.len as nat
    }

    pub closed spec fn spec_address(&self) -> nat {
        self.address as nat
    }

    /// The name of the output.
    pub fn name(&self) -> (r: &'a str)
        ensures
            r@ == self.spec_name(),
    {
        self.name
    }
}

/// The memory with the bits `val` written at `address`.
pub open spec fn overwrite(mem: Seq<bool>, address: nat, val: Seq<bool>) -> Seq<bool> {
    Seq::new(
        mem.len(),
        |j: int|
            if address <= j < address + val.len() {
                val[j - address]
            } else {
                mem[j]
            },
    )
}

/// The bits of the bus of `len` bits at `address`.
pub open spec fn bus(mem: Seq<bool>, address: nat, len: nat) -> Seq<bool> {
    mem.subrange(address as int, (address + len) as int)
}

/// Reading a bus just written gives back what was written.
pub proof fn law_read_after_write(mem: Seq<bool>, address: nat, val: Seq<bool>)
    requires
        address + val.len() <= mem.len(),
    ensures
        bus(overwrite(mem, address, val), address, val.len()) == val,
{
    assert(bus(overwrite(mem, address, val), address, val.len()) =~= val);
}

/// Bits `from` to `to - 1` of the operand lie in memory, and apart from
/// the `len` bits at `out`.
pub open spec fn reads_apart(size: int, a: OpArgView, from: int, to: int, out: int, len: int) -> bool {
    match a {
        OpArgView::Var(addr) => addr + to <= size && (addr + to <= out || out + len <= addr + from),
        OpArgView::Cst(_) => true,
    }
}

/// Writing bits leaves every place outside them unchanged, and bit `j`
/// is the one computed on the memory with the bits before it written.
proof fn lemma_write_bits_at(mem: Seq<bool>, out: int, n: nat, f: spec_fn(Seq<bool>, int) -> bool, p: int)
    requires
        0 <= out,
        out + n <= mem.len(),
        0 <= p < mem.len(),
    ensures
        (p < out || out + n <= p) ==> write_bits(mem, out, n, f)[p] == mem[p],
        out <= p < out + n ==> write_bits(mem, out, n, f)[p] == f(write_bits(mem, out, (p - out) as nat, f), p - out),
    decreases n,
{
    if n > 0 {
        lemma_write_bits_at(mem, out, (n - 1) as nat, f, p);
        lemma_write_bits_len(mem, out, (n - 1) as nat, f);
    }
}

/// While bits are written at `out`, an operand bit apart from them reads
/// as it did before.
proof fn lemma_bit_kept(
    mem: Seq<bool>,
    out: int,
    len: nat,
    j: nat,
    f: spec_fn(Seq<bool>, int) -> bool,
    a: OpArgView,
    from: int,
    to: int,
    k: int,
)
    requires
        0 <= out,
        out + len <= mem.len(),
        j <= len,
        from <= k < to,
        0 <= from,
        reads_apart(mem.len() as int, a, from, to, out, len as int),
    ensures
        bit_of(write_bits(mem, out, j, f), a, k) == bit_of(mem, a, k),
{
    if let OpArgView::Var(addr) = a {
        lemma_write_bits_at(mem, out, j, f, addr + k);
    }
}

/// Bit `i` written by `write_bits` with `f` is `f` on the memory as it
/// stood, where `f` reads bits apart from the output.
proof fn lemma_written_bit(mem: Seq<bool>, out: int, n: nat, f: spec_fn(Seq<bool>, int) -> bool, i: int)
    requires
        0 <= out,
        out + n <= mem.len(),
        0 <= i < n,
    ensures
        write_bits(mem, out, n, f).len() == mem.len(),
        write_bits(mem, out, n, f)[out + i] == f(write_bits(mem, out, i as nat, f), i),
{
    lemma_write_bits_len(mem, out, n, f);
    lemma_write_bits_at(mem, out, n, f, out + i);
}

/// A gate sets bit `i` of its output from bits `i` of its operands: `or`
/// is true where either is, `xor` where exactly one is, `and` where both
/// are, and `nand` is false exactly where both are true.
pub proof fn law_gate_bits(mem: Seq<bool>, out: nat, op: BinOp, len: u32, l: OpArgView, r: OpArgView, i: int)
    requires
        out + len <= mem.len(),
        0 <= i < len,
        reads_apart(mem.len() as int, l, 0, len as int, out as int, len as int),
        reads_apart(mem.len() as int, r, 0, len as int, out as int, len as int),
    ensures
        apply_def(mem, out as int, VarDefView::BinOp(op, len, l, r)).len() == mem.len(),
        op is Or ==> (apply_def(mem, out as int, VarDefView::BinOp(op, len, l, r))[out + i]
            <==> (bit_of(mem, l, i) || bit_of(mem, r, i))),
        op is Xor ==> (apply_def(mem, out as int, VarDefView::BinOp(op, len, l, r))[out + i]
            <==> (bit_of(mem, l, i) != bit_of(mem, r, i))),
        op is And ==> (apply_def(mem, out as int, VarDefView::BinOp(op, len, l, r))[out + i]
            <==> (bit_of(mem, l, i) && bit_of(mem, r, i))),
        op is Nand ==> (!apply_def(mem, out as int, VarDefView::BinOp(op, len, l, r))[out + i]
            <==> (bit_of(mem, l, i) && bit_of(mem, r, i))),
{
    let f = bin_bit(op, l, r);
    lemma_written_bit(mem, out as int, len as nat, f, i);
    lemma_bit_kept(mem, out as int, len as nat, i as nat, f, l, 0, len as int, i);
    lemma_bit_kept(mem, out as int, len as nat, i as nat, f, r, 0, len as int, i);
}

/// Each operator of a netlist stands for a gate that computes what the operator
/// names: `OR`, `XOR`, `AND`, and `NAND`, which is false exactly where
/// both inputs are true.
pub proof fn law_netlist_gates(t: BinOpType, l: bool, r: bool)
    ensures
        t is Or ==> (bin_op_value(bin_op_of(t), l, r) <==> (l || r)),
        t is Xor ==> (bin_op_value(bin_op_of(t), l, r) <==> (l != r)),
        t is And ==> (bin_op_value(bin_op_of(t), l, r) <==> (l && r)),
        t is Nand ==> (!bin_op_value(bin_op_of(t), l, r) <==> (l && r)),
{
}

/// A `not` sets bit `i` of its output to the negation of bit `i` of its
/// operand.
pub proof fn law_not_bits(mem: Seq<bool>, out: nat, len: u32, a: OpArgView, i: int)
    requires
        out + len <= mem.len(),
        0 <= i < len,
        reads_apart(mem.len() as int, a, 0, len as int, out as int, len as int),
    ensures
        apply_def(mem, out as int, VarDefView::Not(len, a)).len() == mem.len(),
        apply_def(mem, out as int, VarDefView::Not(len, a))[out + i] != bit_of(mem, a, i),
{
    let f = not_bit(a);
    lemma_written_bit(mem, out as int, len as nat, f, i);
    lemma_bit_kept(mem, out as int, len as nat, i as nat, f, a, 0, len as int, i);
}

/// A copy sets bit `i` of its output to bit `i` of its operand.
pub proof fn law_fwd_bits(mem: Seq<bool>, out: nat, len: u32, a: OpArgView, i: int)
    requires
        out + len <= mem.len(),
        0 <= i < len,
        reads_apart(mem.len() as int, a, 0, len as int, out as int, len as int),
    ensures
        apply_def(mem, out as int, VarDefView::Fwd(len, a)).len() == mem.len(),
        apply_def(mem, out as int, VarDefView::Fwd(len, a))[out + i] == bit_of(mem, a, i),
{
    let f = fwd_bit(a, 0);
    lemma_written_bit(mem, out as int, len as nat, f, i);
    lemma_bit_kept(mem, out as int, len as nat, i as nat, f, a, 0, len as int, i);
}

/// A slice from `start` to `end` sets bit `i` of its output to bit
/// `start + i` of its operand.
pub proof fn law_slice_bits(mem: Seq<bool>, out: nat, start: u32, end: u32, a: OpArgView, i: int)
    requires
        start <= end,
        out + (end - start + 1) <= mem.len(),
        0 <= i <= end - start,
        reads_apart(mem.len() as int, a, start as int, end + 1, out as int, end - start + 1),
    ensures
        apply_def(mem, out as int, VarDefView::Slice(start, end, a)).len() == mem.len(),
        apply_def(mem, out as int, VarDefView::Slice(start, end, a))[out + i] == bit_of(mem, a, start + i),
{
    let n = (end - start + 1) as nat;
    let f = fwd_bit(a, start as int);
    lemma_written_bit(mem, out as int, n, f, i);
    lemma_bit_kept(mem, out as int, n, i as nat, f, a, start as int, end + 1, start + i);
}

/// A selection sets its one output bit to bit `index` of its operand, and
/// changes nothing else.
pub proof fn law_select_bit(mem: Seq<bool>, out: nat, index: u32, a: OpArgView, p: int)
    requires
        out < mem.len(),
        0 <= p < mem.len(),
    ensures
        apply_def(mem, out as int, VarDefView::Select(index, a)).len() == mem.len(),
        apply_def(mem, out as int, VarDefView::Select(index, a))[out as int] == bit_of(mem, a, index as int),
        p != out ==> apply_def(mem, out as int, VarDefView::Select(index, a))[p] == mem[p],
{
}

/// A concatenation gives first the bits of its left operand, then those
/// of its right one.
pub proof fn law_concat_bits(mem: Seq<bool>, out: nat, l_len: u32, l: OpArgView, r_len: u32, r: OpArgView, i: int)
    requires
        out + l_len + r_len <= mem.len(),
        0 <= i < l_len + r_len,
        reads_apart(mem.len() as int, l, 0, l_len as int, out as int, l_len + r_len),
        reads_apart(mem.len() as int, r, 0, r_len as int, out as int, l_len + r_len),
    ensures
        apply_def(mem, out as int, VarDefView::Concat(l_len, l, r_len, r)).len() == mem.len(),
        i < l_len ==> apply_def(mem, out as int, VarDefView::Concat(l_len, l, r_len, r))[out + i] == bit_of(mem, l, i),
        l_len <= i ==> apply_def(mem, out as int, VarDefView::Concat(l_len, l, r_len, r))[out + i] == bit_of(mem, r, i - l_len),
{
    let fl = fwd_bit(l, 0);
    let fr = fwd_bit(r, 0);
    let n = (l_len + r_len) as nat;
    let m1 = write_bits(mem, out as int, l_len as nat, fl);
    lemma_write_bits_len(mem, out as int, l_len as nat, fl);
    lemma_write_bits_len(m1, out + l_len, r_len as nat, fr);
    if i < l_len {
        lemma_written_bit(mem, out as int, l_len as nat, fl, i);
        lemma_bit_kept(mem, out as int, n, i as nat, fl, l, 0, l_len as int, i);
        lemma_write_bits_at(m1, out + l_len, r_len as nat, fr, out + i);
    } else {
        let j = i - l_len;
        lemma_written_bit(m1, out + l_len, r_len as nat, fr, j);
        lemma_bit_kept(m1, out + l_len, r_len as nat, j as nat, fr, r, 0, r_len as int, j);
        if let OpArgView::Var(addr) = r {
            lemma_write_bits_at(mem, out as int, l_len as nat, fl, addr + j);
        }
    }
}

/// A multiplexer gives its first data input where the selector bit is
/// false and its second where it is true, and changes nothing else.
pub proof fn law_mux_bit(mem: Seq<bool>, out: nat, s: OpArgView, l: OpArgView, r: OpArgView, p: int)
    requires
        out < mem.len(),
        0 <= p < mem.len(),
    ensures
        apply_def(mem, out as int, VarDefView::Mux(s, l, r)).len() == mem.len(),
        !bit_of(mem, s, 0) ==> apply_def(mem, out as int, VarDefView::Mux(s, l, r))[out as int] == bit_of(mem, l, 0),
        bit_of(mem, s, 0) ==> apply_def(mem, out as int, VarDefView::Mux(s, l, r))[out as int] == bit_of(mem, r, 0),
        p != out ==> apply_def(mem, out as int, VarDefView::Mux(s, l, r))[p] == mem[p],
{
}

/// Writes to places that are pairwise different leave each place with
/// the value written there, and the length as it was.
proof fn lemma_apply_distinct_writes(mem: Seq<bool>, w: Seq<(int, bool)>, j: int)
    requires
        forall|a: int| 0 <= a < w.len() ==> 0 <= #[trigger] w[a].0 < mem.len(),
        forall|a: int, b: int| 0 <= a < b < w.len() ==> #[trigger] w[a].0 != #[trigger] w[b].0,
        0 <= j < w.len(),
    ensures
        apply_writes(mem, w).len() == mem.len(),
        apply_writes(mem, w)[w[j].0] == w[j].1,
    decreases w.len(),
{
    let v = w.drop_last();
    assert forall|a: int| 0 <= a < v.len() implies 0 <= (#[trigger] v[a]).0 < mem.len() by {
        assert(v[a] == w[a]);
    }
    assert forall|a: int, b: int| 0 <= a < b < v.len() implies #[trigger] v[a].0 != #[trigger] v[b].0 by {
        assert(v[a] == w[a]);
        assert(v[b] == w[b]);
    }
    lemma_apply_writes_len(mem, v);
    assert(apply_writes(mem, w) == apply_writes(mem, v).update(w.last().0, w.last().1));
    if j < w.len() - 1 {
        assert(v[j] == w[j]);
        lemma_apply_distinct_writes(mem, v, j);
        assert(w[j].0 != w[w.len() - 1].0);
    }
}

/// A register of `len` bits gives, at the start of a tick, the bits its
/// input held before the tick.
pub proof fn law_register_bits(mem: Seq<bool>, auxs: Seq<AuxView>, len: u32, input: usize, output: usize, i: int)
    requires
        input + len <= mem.len(),
        output + len <= mem.len(),
        0 <= i < len,
    ensures
        apply_writes(mem, mem_op_writes(mem, auxs, MemOpView::Reg(len, input, output))).len() == mem.len(),
        apply_writes(mem, mem_op_writes(mem, auxs, MemOpView::Reg(len, input, output)))[output + i] == mem[input + i],
{
    let w = mem_op_writes(mem, auxs, MemOpView::Reg(len, input, output));
    lemma_apply_distinct_writes(mem, w, i);
}

/// Reading a word of a memory just written gives back what was written.
pub proof fn law_aux_read_after_write(a: AuxView, address: nat, data: Seq<bool>)
    requires
        data.len() == a.word_size,
        address * a.word_size + a.word_size <= a.bits.len(),
    ensures
        aux_read(aux_write(a, address, data), address) == data,
        aux_write(a, address, data).bits.len() == a.bits.len(),
{
    assert(aux_read(aux_write(a, address, data), address) =~= data);
}

/// Writing a word of a memory leaves every other word unchanged.
pub proof fn law_aux_write_elsewhere(a: AuxView, address: nat, data: Seq<bool>, other: nat)
    requires
        data.len() == a.word_size,
        address * a.word_size + a.word_size <= a.bits.len(),
        other * a.word_size + a.word_size <= a.bits.len(),
        other != address,
    ensures
        aux_read(aux_write(a, address, data), other) == aux_read(a, other),
{
    let ws = a.word_size;
    if other < address {
        assert(other * ws + ws <= address * ws) by (nonlinear_arith)
            requires other < address;
    } else {
        assert(address * ws + ws <= other * ws) by (nonlinear_arith)
            requires address < other;
    }
    assert(aux_read(aux_write(a, address, data), other) =~= aux_read(a, other));
}

/// A read-only or random-access memory gives, at the start of a tick, the
/// word at the address it reads.
pub proof fn law_memory_read_bits(
    mem: Seq<bool>,
    auxs: Seq<AuxView>,
    op: MemOpView,
    i: int,
)
    requires
        op is Rom || op is Ram,
        ({
            let (id, asz, wsz, ra, output) = match op {
                MemOpView::Rom(id, asz, wsz, ra, output) => (id, asz, wsz, ra, output),
                MemOpView::Ram(id, asz, wsz, ra, _, _, _, output) => (id, asz, wsz, ra, output),
                MemOpView::Reg(_, _, output) => (0usize, 0u32, 0u32, OpArgView::Cst(seq![]), output),
            };
            &&& id < auxs.len()
            &&& output + wsz <= mem.len()
            &&& 0 <= i < wsz
            &&& aux_read(auxs[id as int], address_of(mem, ra, asz as nat)).len() == wsz
        }),
    ensures
        apply_writes(mem, mem_op_writes(mem, auxs, op)).len() == mem.len(),
        ({
            let (id, asz, ra, output) = match op {
                MemOpView::Rom(id, asz, _, ra, output) => (id, asz, ra, output),
                MemOpView::Ram(id, asz, _, ra, _, _, _, output) => (id, asz, ra, output),
                MemOpView::Reg(_, _, output) => (0usize, 0u32, OpArgView::Cst(seq![]), output),
            };
            apply_writes(mem, mem_op_writes(mem, auxs, op))[output + i] == aux_read(auxs[id as int], address_of(mem, ra, asz as nat))[i]
        }),
{
    let w = mem_op_writes(mem, auxs, op);
    lemma_apply_distinct_writes(mem, w, i);
}

/// A random-access memory writes, in a tick, exactly where its write
/// enable bit is set: the data operand's word, at the address read from its
/// write-address operand, in its own memory; the others write nothing.
pub proof fn law_memory_write(mem: Seq<bool>, op: MemOpView)
    ensures
        match op {
            MemOpView::Ram(id, asz, wsz, _, we, wa, data, _) => {
                &&& bit_of(mem, we, 0) ==> mem_op_aux_write(mem, op) == Some(
                    (id as nat, address_of(mem, wa, asz as nat), Seq::new(wsz as nat, |i: int| bit_of(mem, data, i))),
                )
                &&& !bit_of(mem, we, 0) ==> mem_op_aux_write(mem, op) is None
            },
            _ => mem_op_aux_write(mem, op) is None,
        },
{
    if let MemOpView::Ram(id, asz, wsz, _, we, wa, data, _) = op {
        assert(arg_bits(mem, data, wsz as nat) =~= Seq::new(wsz as nat, |i: int| bit_of(mem, data, i)));
    }
}

/// Writing a bus leaves every bus that does not overlap it unchanged.
pub proof fn law_write_elsewhere(mem: Seq<bool>, address: nat, val: Seq<bool>, other: nat, len: nat)
    requires
        address + val.len() <= mem.len(),
        other + len <= mem.len(),
        other + len <= address || address + val.len() <= other,
    ensures
        bus(overwrite(mem, address, val), other, len) == bus(mem, other, len),
{
    assert(bus(overwrite(mem, address, val), other, len) =~= bus(mem, other, len));
}

} // verus!

verus! {

/// A memory operation reads and writes only inside the memories.
pub open spec fn mem_op_in_bounds(ops: &OpsList, op: MemOpView) -> bool {
    let ms = ops.mem_size as nat;
    match op {
        MemOpView::Reg(len, input, output) => input + len <= ms && output + len <= ms,
        MemOpView::Ram(id, asz, wsz, ra, we, wa, data, out) => {
            &&& id < ops.mems@.len()
            &&& ops.mems@[id as int].size == two_pow(asz as nat)
            &&& ops.mems@[id as int].word_length == wsz
            &&& two_pow(asz as nat) <= usize::MAX
            &&& asz > 0 ==> arg_in_bounds(ms, ra, 1)
            &&& arg_in_bounds(ms, we, 1)
            &&& asz > 0 ==> arg_in_bounds(ms, wa, 1)
            &&& arg_in_bounds(ms, data, wsz as nat)
            &&& out + wsz <= ms
        },
        MemOpView::Rom(id, asz, wsz, ra, out) => {
            &&& id < ops.mems@.len()
            &&& ops.mems@[id as int].size == two_pow(asz as nat)
            &&& ops.mems@[id as int].word_length == wsz
            &&& two_pow(asz as nat) <= usize::MAX
            &&& asz > 0 ==> arg_in_bounds(ms, ra, 1)
            &&& out + wsz <= ms
        },
    }
}

/// The operations of `ops` can be simulated on these memories: the
/// memories have the sizes that `ops` describes and every operation reads
/// and writes inside them.
pub open spec fn runnable(ops: &OpsList, mem: Seq<bool>, auxs: Seq<AuxView>) -> bool {
    &&& mem.len() == ops.mem_size
    &&& auxs.len() == ops.mems@.len()
    &&& forall|k: int|
        0 <= k < auxs.len() ==> (#[trigger] auxs[k]).word_size == ops.mems@[k].word_length && auxs[k].bits.len()
            == ops.mems@[k].size * ops.mems@[k].word_length
    &&& forall|k: int|
        0 <= k < ops.ops@.len() ==> def_in_bounds(ops.mem_size as nat, (#[trigger] ops.ops@[k]).0 as nat, ops.ops@[k].1@)
    &&& forall|k: int| 0 <= k < ops.mem_ops@.len() ==> mem_op_in_bounds(ops, (#[trigger] ops.mem_ops@[k])@)
}

/// The sizes of the memories allow them to be allocated.
pub open spec fn mems_fit(ops: &OpsList) -> bool {
    forall|k: int| 0 <= k < ops.mems@.len() ==> (#[trigger] ops.mems@[k]).word_length * ops.mems@[k].size <= usize::MAX
}

/// The simulator: the simulation memory, where every bus lies side by
/// side, and one memory per RAM or ROM.
pub struct Runner<'a> {
    mem: Vec<bool>,
    aux_mems: Vec<AuxMem>,
    ops: &'a OpsList,
}

impl<'a> Runner<'a> {
    /// The simulation memory.
    pub closed spec fn spec_mem(&self) -> Seq<bool> {
        self.mem@
    }

    /// The memories of the RAMs and ROMs.
    pub closed spec fn spec_auxs(&self) -> Seq<AuxView> {
        self.aux_mems@.map_values(|a: AuxMem| a@)
    }

    /// The simulated operations.
    pub closed spec fn spec_ops(&self) -> OpsList {
        *self.ops
    }

    /// The operations can be simulated on the current memories.
    pub open spec fn ready(&self) -> bool {
        runnable(&self.spec_ops(), self.spec_mem(), self.spec_auxs())
    }

    /// A simulator with all memories zeroed, with the inputs and outputs
    /// of `ops`.
    pub fn new(ops: &'a OpsList) -> (r: (Self, Vec<InputInfo<'a>>, Vec<OutputInfo<'a>>))
        requires
            mems_fit(ops),
        ensures
            r.0.spec_ops() == *ops,
            r.0.spec_mem() == Seq::new(ops.mem_size as nat, |j: int| false),
            r.0.spec_auxs().len() == ops.mems@.len(),
            forall|k: int|
                0 <= k < ops.mems@.len() ==> #[trigger] r.0.spec_auxs()[k] == (AuxView {
                    word_size: ops.mems@[k].word_length as nat,
                    bits: Seq::new((ops.mems@[k].word_length * ops.mems@[k].size) as nat, |j: int| false),
                }),
            r.1@.len() == ops.inputs@.len(),
            forall|k: int|
                0 <= k < ops.inputs@.len() ==> (#[trigger] r.1@[k]).spec_name() == ops.inputs@[k].2@ && r.1@[k].spec_len()
                    == ops.inputs@[k].0 && r.1@[k].spec_address() == ops.inputs@[k].1,
            r.2@.len() == ops.outputs@.len(),
            forall|k: int|
                0 <= k < ops.outputs@.len() ==> (#[trigger] r.2@[k]).spec_name() == ops.outputs@[k].2@
                    && r.2@[k].spec_len() == ops.outputs@[k].0 && r.2@[k].spec_address() == ops.outputs@[k].1,
    {
        let mut mem: Vec<bool> = Vec::new();
        let mut i: usize = 0;
        while i < ops.mem_size
            invariant
                i <= ops.mem_size,
                mem@ == Seq::new(i as nat, |j: int| false),
            decreases ops.mem_size - i,
        {
            mem.push(false);
            i = i + 1;
        }
        let mut aux_mems: Vec<AuxMem> = Vec::new();
        let mut k: usize = 0;
        while k < ops.mems.len()
            invariant
                k <= ops.mems@.len(),
                mems_fit(ops),
                aux_mems@.len() == k,
                forall|q: int|
                    0 <= q < k ==> #[trigger] aux_mems@[q]@ == (AuxView {
                        word_size: ops.mems@[q].word_length as nat,
                        bits: Seq::new((ops.mems@[q].word_length * ops.mems@[q].size) as nat, |j: int| false),
                    }),
            decreases ops.mems.len() - k,
        {
            assert(ops.mems@[k as int].word_length * ops.mems@[k as int].size <= usize::MAX);
            aux_mems.push(AuxMem::new(ops.mems[k].size, ops.mems[k].word_length));
            k = k + 1;
        }
        let mut inputs: Vec<InputInfo<'a>> = Vec::new();
        let mut k: usize = 0;
        while k < ops.inputs.len()
            invariant
                k <= ops.inputs@.len(),
                inputs@.len() == k,
                forall|q: int|
                    0 <= q < k ==> (#[trigger] inputs@[q]).spec_name() == ops.inputs@[q].2@ && inputs@[q].spec_len()
                        == ops.inputs@[q].0 && inputs@[q].spec_address() == ops.inputs@[q].1,
            decreases ops.inputs.len() - k,
        {
            let (len, address, name) = &ops.inputs[k];
            inputs.push(InputInfo::new(name.as_str(), *len, *address));
            k = k + 1;
        }
        let mut outputs: Vec<OutputInfo<'a>> = Vec::new();
        let mut k: usize = 0;
        while k < ops.outputs.len()
            invariant
                k <= ops.outputs@.len(),
                outputs@.len() == k,
                forall|q: int|
                    0 <= q < k ==> (#[trigger] outputs@[q]).spec_name() == ops.outputs@[q].2@ && outputs@[q].spec_len()
                        == ops.outputs@[q].0 && outputs@[q].spec_address() == ops.outputs@[q].1,
            decreases ops.outputs.len() - k,
        {
            let (len, address, name) = &ops.outputs[k];
            outputs.push(OutputInfo::new(name.as_str(), *len, *address));
            k = k + 1;
        }
        let r = Runner { mem, aux_mems, ops };
        assert(r.spec_auxs().len() == ops.mems@.len());
        (r, inputs, outputs)
    }

    /// The current value of an output.
    pub fn read(&self, output: &OutputInfo) -> (r: Vec<bool>)
        requires
            output.spec_address() + output.spec_len() <= self.spec_mem().len(),
        ensures
            r@ == bus(self.spec_mem(), output.spec_address(), output.spec_len()),
    {
        let total = self.mem.len();
        let mut r: Vec<bool> = Vec::new();
        let mut i: u32 = 0;
        while i < output.len
            invariant
                total == self.mem@.len(),
                output.address + output.len <= self.mem@.len(),
                i <= output.len,
                r@ == self.mem@.subrange(output.address as int, output.address + i),
            decreases output.len - i,
        {
            r.push(self.mem[output.address + i as usize]);
            i = i + 1;
            assert(r@ =~= self.mem@.subrange(output.address as int, output.address + i));
        }
        r
    }

    /// Sets the value of an input.
    pub fn write(&mut self, input: &InputInfo, val: &[bool])
        requires
            val@.len() == input.spec_len(),
            input.spec_address() + input.spec_len() <= old(self).spec_mem().len(),
        ensures
            final(self).spec_mem() == overwrite(old(self).spec_mem(), input.spec_address(), val@),
            final(self).spec_auxs() == old(self).spec_auxs(),
            final(self).spec_ops() == old(self).spec_ops(),
    {
        let total = self.mem.len();
        let mut i: u32 = 0;
        while i < input.len
            invariant
                total == self.mem@.len(),
                input.address + input.len <= self.mem@.len(),
                val@.len() == input.len,
                self.mem@.len() == old(self).mem@.len(),
                self.aux_mems == old(self).aux_mems,
                self.ops == old(self).ops,
                i <= input.len,
                forall|j: int|
                    0 <= j < self.mem@.len() ==> #[trigger] self.mem@[j] == if input.address <= j < input.address + i {
                        val@[j - input.address]
                    } else {
                        old(self).mem@[j]
                    },
            decreases input.len - i,
        {
            self.mem[input.address + i as usize] = val[i as usize];
            i = i + 1;
        }
        assert(self.mem@ =~= overwrite(old(self).mem@, input.address as nat, val@));
    }

    /// Bit `offset` of an operand.
    fn get_value(&self, arg: &OpArg, offset: u32) -> (r: bool)
        requires
            arg_in_bounds(self.mem@.len(), arg@, offset as nat + 1),
        ensures
            r == bit_of(self.mem@, arg@, offset as int),
    {
        match arg {
            OpArg::Var(addr) => {
                let total = self.mem.len();
                self.mem[*addr + offset as usize]
            },
            OpArg::Cst(vals) => vals[offset as usize],
        }
    }

    /// The address read from an operand of `len` bits.
    fn get_address(&self, arg: &OpArg, len: u32) -> (r: usize)
        requires
            two_pow(len as nat) <= usize::MAX,
            len > 0 ==> arg_in_bounds(self.mem@.len(), arg@, 1),
        ensures
            r == address_of(self.mem@, arg@, len as nat),
            r < two_pow(len as nat),
    {
        let mut addr: usize = 0;
        let mut i: u32 = 0;
        while i < len
            invariant
                i <= len,
                two_pow(len as nat) <= usize::MAX,
                len > 0 ==> arg_in_bounds(self.mem@.len(), arg@, 1),
                addr == if bit_of(self.mem@, arg@, 0) {
                    (two_pow(i as nat) - 1) as nat
                } else {
                    0nat
                },
            decreases len - i,
        {
            proof {
                lemma_two_pow_pos(i as nat);
                lemma_two_pow_le(i as nat + 1, len as nat);
            }
            let bit = self.get_value(arg, 0);
            addr = 2 * addr + (if bit {
                1
            } else {
                0
            });
            i = i + 1;
        }
        proof {
            lemma_two_pow_pos(len as nat);
        }
        addr
    }
}

impl<'a> Runner<'a> {
    /// Writes bits `shift`, ..., `shift + n - 1` of an operand at `out`.
    fn write_fwd(&mut self, out: usize, n: usize, arg: &OpArg, shift: u32)
        requires
            out + n <= old(self).mem@.len(),
            arg_in_bounds(old(self).mem@.len(), arg@, (shift + n) as nat),
            shift + n <= 0x1_0000_0000,
        ensures
            final(self).mem@ == write_bits(old(self).mem@, out as int, n as nat, fwd_bit(arg@, shift as int)),
            final(self).aux_mems == old(self).aux_mems,
            final(self).ops == old(self).ops,
    {
        let total = self.mem.len();
        let mut i: usize = 0;
        while i < n
            invariant
                i <= n,
                total == self.mem@.len(),
                out + n <= total,
                arg_in_bounds(total as nat, arg@, (shift + n) as nat),
                shift + n <= 0x1_0000_0000,
                self.mem@ == write_bits(old(self).mem@, out as int, i as nat, fwd_bit(arg@, shift as int)),
                self.aux_mems == old(self).aux_mems,
                self.ops == old(self).ops,
            decreases n - i,
        {
            let b = self.get_value(arg, shift + i as u32);
            self.mem[out + i] = b;
            i = i + 1;
        }
    }

    /// Writes the negation of bits `0`, ..., `n - 1` of an operand at `out`.
    fn write_not(&mut self, out: usize, n: u32, arg: &OpArg)
        requires
            out + n <= old(self).mem@.len(),
            arg_in_bounds(old(self).mem@.len(), arg@, n as nat),
        ensures
            final(self).mem@ == write_bits(old(self).mem@, out as int, n as nat, not_bit(arg@)),
            final(self).aux_mems == old(self).aux_mems,
            final(self).ops == old(self).ops,
    {
        let total = self.mem.len();
        let mut i: u32 = 0;
        while i < n
            invariant
                i <= n,
                total == self.mem@.len(),
                out + n <= total,
                arg_in_bounds(total as nat, arg@, n as nat),
                self.mem@ == write_bits(old(self).mem@, out as int, i as nat, not_bit(arg@)),
                self.aux_mems == old(self).aux_mems,
                self.ops == old(self).ops,
            decreases n - i,
        {
            let b = self.get_value(arg, i);
            self.mem[out + i as usize] = !b;
            i = i + 1;
        }
    }

    /// Writes bits `0`, ..., `n - 1` of `l op r` at `out`.
    fn write_bin(&mut self, out: usize, n: u32, op: BinOp, l: &OpArg, r: &OpArg)
        requires
            out + n <= old(self).mem@.len(),
            arg_in_bounds(old(self).mem@.len(), l@, n as nat),
            arg_in_bounds(old(self).mem@.len(), r@, n as nat),
        ensures
            final(self).mem@ == write_bits(old(self).mem@, out as int, n as nat, bin_bit(op, l@, r@)),
            final(self).aux_mems == old(self).aux_mems,
            final(self).ops == old(self).ops,
    {
        let total = self.mem.len();
        let mut i: u32 = 0;
        while i < n
            invariant
                i <= n,
                total == self.mem@.len(),
                out + n <= total,
                arg_in_bounds(total as nat, l@, n as nat),
                arg_in_bounds(total as nat, r@, n as nat),
                self.mem@ == write_bits(old(self).mem@, out as int, i as nat, bin_bit(op, l@, r@)),
                self.aux_mems == old(self).aux_mems,
                self.ops == old(self).ops,
            decreases n - i,
        {
            let a = self.get_value(l, i);
            let b = self.get_value(r, i);
            let v = match op {
                BinOp::Or => a || b,
                BinOp::Xor => a != b,
                BinOp::And => a && b,
                BinOp::Nand => !(a && b),
            };
            self.mem[out + i as usize] = v;
            i = i + 1;
        }
    }

    /// Computes the variable at `out` as `def` says.
    fn run_def(&mut self, out: usize, def: &VarDef)
        requires
            def_in_bounds(old(self).mem@.len(), out as nat, def@),
        ensures
            final(self).mem@ == apply_def(old(self).mem@, out as int, def@),
            final(self).aux_mems == old(self).aux_mems,
            final(self).ops == old(self).ops,
    {
        let total = self.mem.len();
        match def {
            VarDef::Input => {},
            VarDef::Mem => {},
            VarDef::Fwd(len, arg) => self.write_fwd(out, *len as usize, arg, 0),
            VarDef::Not(len, arg) => self.write_not(out, *len, arg),
            VarDef::BinOp(op, len, l, r) => self.write_bin(out, *len, *op, l, r),
            VarDef::Mux(sel, l, r) => {
                let v = if !self.get_value(sel, 0) {
                    self.get_value(l, 0)
                } else {
                    self.get_value(r, 0)
                };
                self.mem[out] = v;
            },
            VarDef::Select(index, source) => {
                let v = self.get_value(source, *index);
                self.mem[out] = v;
            },
            VarDef::Slice(start, end, source) => {
                let n = (*end - *start) as usize + 1;
                self.write_fwd(out, n, source, *start);
            },
            VarDef::Concat(l_len, l, r_len, r) => {
                self.write_fwd(out, *l_len as usize, l, 0);
                proof {
                    lemma_write_bits_len(old(self).mem@, out as int, *l_len as nat, fwd_bit(l@, 0));
                }
                self.write_fwd(out + *l_len as usize, *r_len as usize, r, 0);
            },
        }
    }

    /// Computes every variable, in the order of the operations.
    fn tick_logic(&mut self)
        requires
            old(self).ready(),
        ensures
            final(self).mem@ == apply_ops(old(self).mem@, old(self).ops.ops@, old(self).ops.ops@.len() as int),
            final(self).aux_mems == old(self).aux_mems,
            final(self).ops == old(self).ops,
    {
        let ops = self.ops;
        let mut k: usize = 0;
        while k < ops.ops.len()
            invariant
                k <= ops.ops@.len(),
                self.ops == ops,
                self.aux_mems == old(self).aux_mems,
                old(self).ops == ops,
                self.mem@.len() == ops.mem_size,
                forall|q: int|
                    0 <= q < ops.ops@.len() ==> def_in_bounds(ops.mem_size as nat, (#[trigger] ops.ops@[q]).0 as nat, ops.ops@[q].1@),
                self.mem@ == apply_ops(old(self).mem@, ops.ops@, k as int),
            decreases ops.ops.len() - k,
        {
            let (out, def) = &ops.ops[k];
            proof {
                lemma_apply_def_len(self.mem@, *out as int, def@);
            }
            self.run_def(*out, def);
            k = k + 1;
        }
    }
}

/// The simulation memory after one tick: the memory operations first,
/// each reading the memories as they were before the tick, then every
/// variable in the order of the operations.
pub open spec fn next_mem(ops: OpsList, mem: Seq<bool>, auxs: Seq<AuxView>) -> Seq<bool> {
    apply_ops(
        apply_writes(mem, all_writes(mem, auxs, ops.mem_ops@, ops.mem_ops@.len() as int)),
        ops.ops@,
        ops.ops@.len() as int,
    )
}

/// The memories of the RAMs after one tick.
pub open spec fn next_auxs(ops: OpsList, mem: Seq<bool>, auxs: Seq<AuxView>) -> Seq<AuxView> {
    apply_aux_writes(auxs, all_aux_writes(mem, ops.mem_ops@, ops.mem_ops@.len() as int))
}

spec fn writes_view(v: Seq<(usize, bool)>) -> Seq<(int, bool)> {
    v.map_values(|p: (usize, bool)| (p.0 as int, p.1))
}

spec fn aux_writes_view(v: Seq<(usize, usize, Vec<bool>)>) -> Seq<(nat, nat, Seq<bool>)> {
    v.map_values(|t: (usize, usize, Vec<bool>)| (t.0 as nat, t.1 as nat, t.2@))
}

spec fn writes_in_bounds(v: Seq<(usize, bool)>, n: nat) -> bool {
    forall|i: int| 0 <= i < v.len() ==> (#[trigger] v[i]).0 < n
}

spec fn aux_writes_in_bounds(v: Seq<(usize, usize, Vec<bool>)>, mems: Seq<MemInfo>) -> bool {
    forall|i: int|
        0 <= i < v.len() ==> (#[trigger] v[i]).0 < mems.len() && v[i].1 < mems[v[i].0 as int].size
            && v[i].2@.len() == mems[v[i].0 as int].word_length
}

proof fn lemma_word_fits(address: nat, size: nat, ws: nat)
    requires
        address < size,
    ensures
        address * ws + ws <= size * ws,
{
    assert(address * ws + ws <= size * ws) by (nonlinear_arith)
        requires
            address + 1 <= size,
    ;
}

impl<'a> Runner<'a> {
    /// Appends the bits of word `addr` of memory `id` to the writes, as the
    /// bits `output`, ..., `output + wsz - 1`.
    fn push_word(&self, id: usize, addr: usize, wsz: u32, output: usize, acc: &mut Vec<(usize, bool)>)
        requires
            self.ready(),
            id < self.ops.mems@.len(),
            addr < self.ops.mems@[id as int].size,
            wsz == self.ops.mems@[id as int].word_length,
            output + wsz <= self.mem@.len(),
            writes_in_bounds(old(acc)@, self.mem@.len()),
        ensures
            writes_view(final(acc)@) == writes_view(old(acc)@) + Seq::new(
                wsz as nat,
                |i: int| (output + i, aux_read(self.spec_auxs()[id as int], addr as nat)[i]),
            ),
            writes_in_bounds(final(acc)@, self.mem@.len()),
    {
        let total = self.mem.len();
        proof {
            assert(self.spec_auxs()[id as int] == self.aux_mems@[id as int]@);
            lemma_word_fits(addr as nat, self.ops.mems@[id as int].size as nat, wsz as nat);
            assert(self.aux_mems@[id as int].mem@.len() == self.ops.mems@[id as int].size * wsz);
        }
        let word = self.aux_mems[id].read(addr);
        let ghost start = writes_view(acc@);
        let mut i: u32 = 0;
        while i < wsz
            invariant
                i <= wsz,
                total == self.mem@.len(),
                output + wsz <= total,
                word@.len() == wsz,
                writes_view(acc@) == start + Seq::new(i as nat, |j: int| (output + j, word@[j])),
                writes_in_bounds(acc@, total as nat),
            decreases wsz - i,
        {
            let ghost before = acc@;
            acc.push((output + i as usize, word[i as usize]));
            i = i + 1;
            assert(writes_view(acc@) =~= writes_view(before).push((output + i - 1, word@[i - 1])));
            assert(writes_view(acc@) =~= start + Seq::new(i as nat, |j: int| (output + j, word@[j])));
        }
        assert(word@ == aux_read(self.spec_auxs()[id as int], addr as nat));
    }

    /// Appends the writes that one memory operation performs.
    fn op_writes(&self, op: &MemOp, acc: &mut Vec<(usize, bool)>, aux_acc: &mut Vec<(usize, usize, Vec<bool>)>)
        requires
            self.ready(),
            mem_op_in_bounds(self.ops, op@),
            writes_in_bounds(old(acc)@, self.mem@.len()),
            aux_writes_in_bounds(old(aux_acc)@, self.ops.mems@),
        ensures
            writes_view(final(acc)@) == writes_view(old(acc)@) + mem_op_writes(self.mem@, self.spec_auxs(), op@),
            aux_writes_view(final(aux_acc)@) == aux_writes_view(old(aux_acc)@) + mem_op_aux_writes(self.mem@, op@),
            writes_in_bounds(final(acc)@, self.mem@.len()),
            aux_writes_in_bounds(final(aux_acc)@, self.ops.mems@),
    {
        let total = self.mem.len();
        match op {
            MemOp::Reg(r) => {
                let ghost start = writes_view(acc@);
                let mut i: u32 = 0;
                while i < r.data_len
                    invariant
                        i <= r.data_len,
                        total == self.mem@.len(),
                        r.input + r.data_len <= total,
                        r.output + r.data_len <= total,
                        writes_view(acc@) == start + Seq::new(i as nat, |j: int| (r.output + j, self.mem@[r.input + j])),
                        writes_in_bounds(acc@, total as nat),
                        aux_acc@ == old(aux_acc)@,
                    decreases r.data_len - i,
                {
                    let ghost before = acc@;
                    acc.push((r.output + i as usize, self.mem[r.input + i as usize]));
                    i = i + 1;
                    assert(writes_view(acc@) =~= writes_view(before).push(
                        (r.output + i - 1, self.mem@[r.input + i - 1]),
                    ));
                    assert(writes_view(acc@) =~= start + Seq::new(
                        i as nat,
                        |j: int| (r.output + j, self.mem@[r.input + j]),
                    ));
                }
                assert(aux_writes_view(aux_acc@) =~= aux_writes_view(old(aux_acc)@) + mem_op_aux_writes(self.mem@, op@));
            },
            MemOp::Ram(r) => {
                let read_addr = self.get_address(&r.read_address, r.address_size);
                let we = self.get_value(&r.write_enable, 0);
                if we {
                    let write_addr = self.get_address(&r.write_address, r.address_size);
                    let mut data: Vec<bool> = Vec::new();
                    let mut i: u32 = 0;
                    while i < r.word_size
                        invariant
                            i <= r.word_size,
                            total == self.mem@.len(),
                            arg_in_bounds(total as nat, r.data@, r.word_size as nat),
                            data@ == arg_bits(self.mem@, r.data@, i as nat),
                        decreases r.word_size - i,
                    {
                        let b = self.get_value(&r.data, i);
                        data.push(b);
                        i = i + 1;
                        assert(data@ =~= arg_bits(self.mem@, r.data@, i as nat));
                    }
                    let ghost before = aux_acc@;
                    aux_acc.push((r.mem_id, write_addr, data));
                    assert(aux_writes_view(aux_acc@) =~= aux_writes_view(before) + mem_op_aux_writes(self.mem@, op@));
                } else {
                    assert(aux_writes_view(aux_acc@) =~= aux_writes_view(old(aux_acc)@) + mem_op_aux_writes(self.mem@, op@));
                }
                self.push_word(r.mem_id, read_addr, r.word_size, r.output, acc);
            },
            MemOp::Rom(r) => {
                let read_addr = self.get_address(&r.read_address, r.address_size);
                self.push_word(r.mem_id, read_addr, r.word_size, r.output, acc);
                assert(aux_writes_view(aux_acc@) =~= aux_writes_view(old(aux_acc)@) + mem_op_aux_writes(self.mem@, op@));
            },
        }
    }
}

impl<'a> Runner<'a> {
    /// The writes of all memory operations, in order.
    fn collect_writes(&self) -> (r: (Vec<(usize, bool)>, Vec<(usize, usize, Vec<bool>)>))
        requires
            self.ready(),
        ensures
            writes_view(r.0@) == all_writes(self.mem@, self.spec_auxs(), self.ops.mem_ops@, self.ops.mem_ops@.len() as int),
            aux_writes_view(r.1@) == all_aux_writes(self.mem@, self.ops.mem_ops@, self.ops.mem_ops@.len() as int),
            writes_in_bounds(r.0@, self.mem@.len()),
            aux_writes_in_bounds(r.1@, self.ops.mems@),
    {
        let mut acc: Vec<(usize, bool)> = Vec::new();
        let mut aux_acc: Vec<(usize, usize, Vec<bool>)> = Vec::new();
        let mut k: usize = 0;
        assert(writes_view(acc@) =~= seq![]);
        assert(aux_writes_view(aux_acc@) =~= seq![]);
        while k < self.ops.mem_ops.len()
            invariant
                self.ready(),
                k <= self.ops.mem_ops@.len(),
                writes_view(acc@) == all_writes(self.mem@, self.spec_auxs(), self.ops.mem_ops@, k as int),
                aux_writes_view(aux_acc@) == all_aux_writes(self.mem@, self.ops.mem_ops@, k as int),
                writes_in_bounds(acc@, self.mem@.len()),
                aux_writes_in_bounds(aux_acc@, self.ops.mems@),
            decreases self.ops.mem_ops.len() - k,
        {
            self.op_writes(&self.ops.mem_ops[k], &mut acc, &mut aux_acc);
            k = k + 1;
        }
        (acc, aux_acc)
    }

    /// Performs the writes to the simulation memory, in order.
    fn apply_mem_writes(&mut self, w: &Vec<(usize, bool)>)
        requires
            writes_in_bounds(w@, old(self).mem@.len()),
        ensures
            final(self).mem@ == apply_writes(old(self).mem@, writes_view(w@)),
            final(self).aux_mems == old(self).aux_mems,
            final(self).ops == old(self).ops,
    {
        let mut i: usize = 0;
        assert(writes_view(w@).take(0) =~= seq![]);
        while i < w.len()
            invariant
                i <= w@.len(),
                writes_in_bounds(w@, old(self).mem@.len()),
                self.mem@.len() == old(self).mem@.len(),
                self.mem@ == apply_writes(old(self).mem@, writes_view(w@).take(i as int)),
                self.aux_mems == old(self).aux_mems,
                self.ops == old(self).ops,
            decreases w.len() - i,
        {
            let (a, v) = w[i];
            self.mem[a] = v;
            assert(writes_view(w@).take(i + 1).drop_last() =~= writes_view(w@).take(i as int));
            i = i + 1;
        }
        assert(writes_view(w@).take(w@.len() as int) =~= writes_view(w@));
    }

    /// Performs the writes to the memories of the RAMs, in order.
    fn apply_aux_updates(&mut self, w: &Vec<(usize, usize, Vec<bool>)>)
        requires
            old(self).ready(),
            aux_writes_in_bounds(w@, old(self).ops.mems@),
        ensures
            final(self).spec_auxs() == apply_aux_writes(old(self).spec_auxs(), aux_writes_view(w@)),
            final(self).ready(),
            final(self).mem == old(self).mem,
            final(self).ops == old(self).ops,
    {
        let mut i: usize = 0;
        assert(aux_writes_view(w@).take(0) =~= seq![]);
        while i < w.len()
            invariant
                i <= w@.len(),
                self.ready(),
                aux_writes_in_bounds(w@, self.ops.mems@),
                self.spec_auxs() == apply_aux_writes(old(self).spec_auxs(), aux_writes_view(w@).take(i as int)),
                self.mem == old(self).mem,
                self.ops == old(self).ops,
            decreases w.len() - i,
        {
            let id = w[i].0;
            let addr = w[i].1;
            let ghost prev = self.aux_mems@;
            proof {
                assert(self.spec_auxs()[id as int] == self.aux_mems@[id as int]@);
                lemma_word_fits(addr as nat, self.ops.mems@[id as int].size as nat, self.ops.mems@[id as int].word_length as nat);
            }
            self.aux_mems[id].write(addr, &w[i].2);
            proof {
                let ws = aux_writes_view(w@);
                assert(ws.take(i + 1).drop_last() =~= ws.take(i as int));
                assert(ws[i as int] == (id as nat, addr as nat, w@[i as int].2@));
                assert(self.spec_auxs() =~= apply_aux_writes(old(self).spec_auxs(), ws.take(i + 1)));
                assert forall|k: int| 0 <= k < self.spec_auxs().len() implies (#[trigger] self.spec_auxs()[k]).word_size
                    == self.ops.mems@[k].word_length && self.spec_auxs()[k].bits.len() == self.ops.mems@[k].size
                    * self.ops.mems@[k].word_length by {
                    if k != id {
                        assert(self.aux_mems@[k] == prev[k]);
                    }
                }
            }
            i = i + 1;
        }
        assert(aux_writes_view(w@).take(w@.len() as int) =~= aux_writes_view(w@));
    }

    /// Runs the memory operations of one tick.
    fn tick_mem(&mut self)
        requires
            old(self).ready(),
        ensures
            final(self).mem@ == apply_writes(
                old(self).mem@,
                all_writes(old(self).mem@, old(self).spec_auxs(), old(self).ops.mem_ops@, old(self).ops.mem_ops@.len() as int),
            ),
            final(self).spec_auxs() == next_auxs(*old(self).ops, old(self).mem@, old(self).spec_auxs()),
            final(self).ready(),
            final(self).ops == old(self).ops,
    {
        let (w, aux_w) = self.collect_writes();
        self.apply_mem_writes(&w);
        proof {
            assert(self.mem@.len() == old(self).mem@.len()) by {
                lemma_apply_writes_len(old(self).mem@, writes_view(w@));
            }
            assert(self.spec_auxs() == old(self).spec_auxs());
        }
        self.apply_aux_updates(&aux_w);
    }

    /// Runs one clock cycle: the registers and memories first, then every
    /// variable in order.
    pub fn tick(&mut self) -> (r: Result<(), String>)
        requires
            old(self).ready(),
        ensures
            r is Ok,
            final(self).spec_mem() == next_mem(old(self).spec_ops(), old(self).spec_mem(), old(self).spec_auxs()),
            final(self).spec_auxs() == next_auxs(old(self).spec_ops(), old(self).spec_mem(), old(self).spec_auxs()),
            final(self).spec_ops() == old(self).spec_ops(),
            final(self).ready(),
    {
        self.tick_mem();
        self.tick_logic();
        proof {
            lemma_apply_ops_len(
                apply_writes(
                    old(self).mem@,
                    all_writes(old(self).mem@, old(self).spec_auxs(), old(self).ops.mem_ops@, old(self).ops.mem_ops@.len() as int),
                ),
                self.ops.ops@,
                self.ops.ops@.len() as int,
                self.ops.mem_size as nat,
            );
        }
        Ok(())
    }
}

proof fn lemma_apply_writes_len(mem: Seq<bool>, w: Seq<(int, bool)>)
    requires
        forall|i: int| 0 <= i < w.len() ==> 0 <= (#[trigger] w[i]).0 < mem.len(),
    ensures
        apply_writes(mem, w).len() == mem.len(),
    decreases w.len(),
{
    if w.len() > 0 {
        lemma_apply_writes_len(mem, w.drop_last());
    }
}

proof fn lemma_apply_ops_len(mem: Seq<bool>, ops: Seq<(usize, VarDef)>, k: int, n: nat)
    requires
        mem.len() == n,
        0 <= k <= ops.len(),
        forall|q: int| 0 <= q < ops.len() ==> def_in_bounds(n, (#[trigger] ops[q]).0 as nat, ops[q].1@),
    ensures
        apply_ops(mem, ops, k).len() == n,
    decreases k,
{
    if k > 0 {
        lemma_apply_ops_len(mem, ops, k - 1, n);
        lemma_apply_def_len(apply_ops(mem, ops, k - 1), ops[k - 1].0 as int, ops[k - 1].1@);
    }
}

proof fn lemma_two_pow_pos(k: nat)
    ensures
        two_pow(k) >= 1,
    decreases k,
{
    if k > 0 {
        lemma_two_pow_pos((k - 1) as nat);
    }
}

proof fn lemma_two_pow_le(a: nat, b: nat)
    requires
        a <= b,
    ensures
        two_pow(a) <= two_pow(b),
    decreases b,
{
    if a < b {
        lemma_two_pow_le(a, (b - 1) as nat);
        lemma_two_pow_pos((b - 1) as nat);
    }
}

} // verus!
