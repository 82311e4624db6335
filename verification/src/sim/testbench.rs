use vstd::prelude::*;

use super::runner::{
    bus, def_in_bounds, mem_op_in_bounds, mems_fit, next_auxs, next_mem, overwrite, AuxView, Runner,
};
use super::types::OpsList;

verus! {

/// Every variable, memory operation, input and output of `ops` lies
/// inside the simulation memory, and the memories can be allocated.
pub open spec fn simulable(ops: &OpsList) -> bool {
    &&& mems_fit(ops)
    &&& forall|k: int|
        0 <= k < ops.ops@.len() ==> def_in_bounds(ops.mem_size as nat, (#[trigger] ops.ops@[k]).0 as nat, ops.ops@[k].1@)
    &&& forall|k: int| 0 <= k < ops.mem_ops@.len() ==> mem_op_in_bounds(ops, (#[trigger] ops.mem_ops@[k])@)
    &&& forall|k: int| 0 <= k < ops.inputs@.len() ==> (#[trigger] ops.inputs@[k]).1 + ops.inputs@[k].0 <= ops.mem_size
    &&& forall|k: int| 0 <= k < ops.outputs@.len() ==> (#[trigger] ops.outputs@[k]).1 + ops.outputs@[k].0 <= ops.mem_size
}

/// The simulation memory of a fresh simulator.
pub open spec fn zero_mem(ops: &OpsList) -> Seq<bool> {
    Seq::new(ops.mem_size as nat, |j: int| false)
}

/// The RAM and ROM memories of a fresh simulator.
pub open spec fn zero_auxs(ops: &OpsList) -> Seq<AuxView> {
    Seq::new(
        ops.mems@.len(),
        |k: int|
            AuxView {
                word_size: ops.mems@[k].word_length as nat,
                bits: Seq::new((ops.mems@[k].word_length * ops.mems@[k].size) as nat, |j: int| false),
            },
    )
}

/// The memory after the values from `base` on are written, in order, to
/// the first `k` inputs.
pub open spec fn write_inputs(ops: &OpsList, mem: Seq<bool>, vals: Seq<Seq<bool>>, base: int, k: int) -> Seq<bool>
    decreases k,
{
    if k <= 0 {
        mem
    } else {
        overwrite(write_inputs(ops, mem, vals, base, k - 1), ops.inputs@[k - 1].1 as nat, vals[base + k - 1])
    }
}

/// The memories after the cycles that start at value `j`: each cycle
/// writes the next values to the inputs, one per input in order, then
/// ticks.
pub open spec fn run_cycles(
    ops: &OpsList,
    mem: Seq<bool>,
    auxs: Seq<AuxView>,
    vals: Seq<Seq<bool>>,
    j: int,
) -> (Seq<bool>, Seq<AuxView>)
    decreases vals.len() - j,
{
    let n = ops.inputs@.len() as int;
    if n == 0 || j + n > vals.len() {
        (mem, auxs)
    } else {
        let m = write_inputs(ops, mem, vals, j, n);
        run_cycles(ops, next_mem(*ops, m, auxs), next_auxs(*ops, m, auxs), vals, j + n)
    }
}

/// The memories at the end of a test whose input values are `vals`.
pub open spec fn test_end(ops: &OpsList, vals: Seq<Seq<bool>>) -> (Seq<bool>, Seq<AuxView>) {
    run_cycles(ops, zero_mem(ops), zero_auxs(ops), vals, 0)
}

/// The values of the outputs at the end of a test.
pub open spec fn test_outputs(ops: &OpsList, vals: Seq<Seq<bool>>) -> Seq<Seq<bool>> {
    Seq::new(
        ops.outputs@.len(),
        |k: int| bus(test_end(ops, vals).0, ops.outputs@[k].1 as nat, ops.outputs@[k].0 as nat),
    )
}

/// The values do not fill a whole number of cycles.
pub open spec fn cycles_incomplete(ops: &OpsList, vals: Seq<Seq<bool>>) -> bool {
    (vals.len() as int) % (ops.inputs@.len() as int) != 0
}

fn bits_equal(a: &Vec<bool>, b: &Vec<bool>) -> (r: bool)
    ensures
        r == (a@ == b@),
{
    if a.len() != b.len() {
        return false;
    }
    let mut i: usize = 0;
    while i < a.len()
        invariant
            a@.len() == b@.len(),
            i <= a@.len(),
            forall|j: int| 0 <= j < i ==> a@[j] == b@[j],
        decreases a.len() - i,
    {
        if a[i] != b[i] {
            return false;
        }
        i = i + 1;
    }
    assert(a@ =~= b@);
    true
}

/// Runs one test of a circuit: the values of `inputs` are written to the
/// inputs in order, a tick after each value of the last input; then each
/// output is compared with the expected value at its place. Gives whether
/// every output matched, and the outputs' values.
pub fn check_run(ops: &OpsList, inputs: &Vec<Vec<bool>>, expected: &Vec<Vec<bool>>) -> (r: Result<
    (bool, Vec<Vec<bool>>),
    String,
>)
    requires
        simulable(ops),
        ops.inputs@.len() > 0 || inputs@.len() == 0,
        forall|i: int|
            0 <= i < inputs@.len() ==> (#[trigger] inputs@[i])@.len() == ops.inputs@[i % (ops.inputs@.len() as int)].0,
    ensures
        ({
            let vals = inputs@.map_values(|v: Vec<bool>| v@);
            let incomplete = vals.len() > 0 && cycles_incomplete(ops, vals);
            let outs = test_outputs(ops, vals);
            match r {
                Err(e) => if incomplete {
                    e@ == "Missing inputs to complete a cycle."@
                } else {
                    expected@.len() < outs.len() && e@ == "Missing output templates."@
                },
                Ok((ok, got)) => {
                    &&& !incomplete
                    &&& expected@.len() >= outs.len()
                    &&& got@.len() == outs.len()
                    &&& forall|k: int| 0 <= k < outs.len() ==> (#[trigger] got@[k])@ == outs[k]
                    &&& ok == forall|k: int| 0 <= k < outs.len() ==> #[trigger] outs[k] == expected@[k]@
                },
            }
        }),
{
    let ghost vals = inputs@.map_values(|v: Vec<bool>| v@);
    let ghost n = ops.inputs@.len() as int;
    let (mut runner, ins, outs) = Runner::new(ops);
    proof {
        assert forall|k: int| 0 <= k < ops.mems@.len() implies (#[trigger] runner.spec_auxs()[k]).bits.len()
            == ops.mems@[k].size * ops.mems@[k].word_length by {
            vstd::arithmetic::mul::lemma_mul_is_commutative(
                ops.mems@[k].size as int,
                ops.mems@[k].word_length as int,
            );
        }
        assert(runner.spec_auxs() =~= zero_auxs(ops));
        assert(runner.spec_mem() =~= zero_mem(ops));
    }
    let ghost start = runner;
    let mut i: usize = 0;
    let ghost mut c: int = 0;
    while i < inputs.len()
        invariant
            simulable(ops),
            n == ops.inputs@.len(),
            n > 0 || inputs@.len() == 0,
            vals == inputs@.map_values(|v: Vec<bool>| v@),
            forall|q: int| 0 <= q < inputs@.len() ==> (#[trigger] inputs@[q])@.len() == ops.inputs@[q % n].0,
            ins@.len() == n,
            forall|k: int|
                0 <= k < n ==> (#[trigger] ins@[k]).spec_len() == ops.inputs@[k].0 && ins@[k].spec_address()
                    == ops.inputs@[k].1,
            runner.spec_ops() == *ops,
            runner.ready(),
            0 <= c,
            i == n * c,
            i <= inputs@.len(),
            run_cycles(ops, runner.spec_mem(), runner.spec_auxs(), vals, i as int) == test_end(ops, vals),
        decreases inputs@.len() - i,
    {
        let ghost m0 = runner.spec_mem();
        let ghost a0 = runner.spec_auxs();
        let ghost i0 = i as int;
        let mut k: usize = 0;
        while k < ins.len()
            invariant
                simulable(ops),
                n == ops.inputs@.len(),
                n > 0,
                vals == inputs@.map_values(|v: Vec<bool>| v@),
                forall|q: int| 0 <= q < inputs@.len() ==> (#[trigger] inputs@[q])@.len() == ops.inputs@[q % n].0,
                ins@.len() == n,
                forall|k: int|
                    0 <= k < n ==> (#[trigger] ins@[k]).spec_len() == ops.inputs@[k].0 && ins@[k].spec_address()
                        == ops.inputs@[k].1,
                runner.spec_ops() == *ops,
                runner.ready(),
                runner.spec_auxs() == a0,
                m0.len() == ops.mem_size,
                0 <= c,
                i0 == n * c,
                i0 < inputs@.len(),
                k <= n,
                i == i0 + k,
                i <= inputs@.len(),
                runner.spec_mem() == write_inputs(ops, m0, vals, i0, k as int),
            decreases n - k,
        {
            if i < inputs.len() {
                proof {
                    vstd::arithmetic::div_mod::lemma_mod_multiples_vanish(c, k as int, n);
                    vstd::arithmetic::div_mod::lemma_small_mod(k as nat, n as nat);
                    assert(inputs@[i as int]@.len() == ops.inputs@[k as int].0);
                    assert(ops.inputs@[k as int].1 + ops.inputs@[k as int].0 <= ops.mem_size);
                }
                runner.write(&ins[k], inputs[i].as_slice());
                i = i + 1;
                k = k + 1;
            } else {
                proof {
                    vstd::arithmetic::div_mod::lemma_mod_multiples_vanish(c, k as int, n);
                    vstd::arithmetic::div_mod::lemma_small_mod(k as nat, n as nat);
                    assert(vals.len() == inputs@.len());
                }
                proof {
                    reveal_strlit("Missing inputs to complete a cycle.");
                }
                return Err(String::from_str("Missing inputs to complete a cycle."));
            }
        }
        proof {
            assert(runner.spec_mem() == write_inputs(ops, m0, vals, i0, n));
        }
        let _ = runner.tick();
        proof {
            c = c + 1;
            assert(n * c == n * (c - 1) + n) by (nonlinear_arith);
        }
    }
    proof {
        if inputs@.len() > 0 {
            assert(vals.len() == n * c);
            vstd::arithmetic::div_mod::lemma_mod_multiples_vanish(c, 0, n);
            assert(!cycles_incomplete(ops, vals));
        }
    }
    let mut got: Vec<Vec<bool>> = Vec::new();
    let mut ok = true;
    let mut k: usize = 0;
    while k < outs.len()
        invariant
            simulable(ops),
            outs@.len() == ops.outputs@.len(),
            forall|q: int|
                0 <= q < outs@.len() ==> (#[trigger] outs@[q]).spec_len() == ops.outputs@[q].0 && outs@[q].spec_address()
                    == ops.outputs@[q].1,
            runner.spec_mem() == test_end(ops, vals).0,
            runner.spec_mem().len() == ops.mem_size,
            vals == inputs@.map_values(|v: Vec<bool>| v@),
            !(vals.len() > 0 && cycles_incomplete(ops, vals)),
            k <= outs@.len(),
            k <= expected@.len(),
            got@.len() == k,
            forall|q: int| 0 <= q < k ==> (#[trigger] got@[q])@ == test_outputs(ops, vals)[q],
            ok == forall|q: int| 0 <= q < k ==> #[trigger] test_outputs(ops, vals)[q] == expected@[q]@,
        decreases outs@.len() - k,
    {
        if k < expected.len() {
            let v = runner.read(&outs[k]);
            let same = bits_equal(&v, &expected[k]);
            proof {
                assert(v@ == test_outputs(ops, vals)[k as int]);
            }
            ok = ok && same;
            got.push(v);
            k = k + 1;
            proof {
                assert(ok == forall|q: int| 0 <= q < k ==> #[trigger] test_outputs(ops, vals)[q] == expected@[q]@) by {
                    if ok {
                        assert forall|q: int| 0 <= q < k implies #[trigger] test_outputs(ops, vals)[q] == expected@[q]@ by {
                            if q < k - 1 {
                            }
                        }
                    } else {
                    }
                }
            }
        } else {
            proof {
                reveal_strlit("Missing output templates.");
            }
            return Err(String::from_str("Missing output templates."));
        }
    }
    Ok((ok, got))
}

} // verus!
