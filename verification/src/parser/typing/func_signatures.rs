use vstd::prelude::*;

use crate::parser::ast::{type_text, Function, StaticType, StaticTypeV};
use super::data::{compatible, is_compatible, types_view, FuncSignature};

verus! {

/// How well an argument type fits a parameter type: `Any` on either side
/// fits without preference, the same type fits best, another type is a
/// mismatch.
pub open spec fn score(a: StaticTypeV, b: StaticTypeV) -> int {
    if a == StaticTypeV::Any || b == StaticTypeV::Any {
        0
    } else if a == b {
        1
    } else {
        -1
    }
}

/// How well an argument type fits a parameter type.
pub fn match_score(a: &StaticType, b: &StaticType) -> (r: i32)
    ensures
        r == score(a@, b@),
{
    match (a, b) {
        (StaticType::Any, _) => 0,
        (_, StaticType::Any) => 0,
        _ => if a.same(b) {
            1
        } else {
            -1
        },
    }
}

/// The number of pairs that two lists make when laid side by side.
pub open spec fn pairs(a: int, b: int) -> int {
    if a <= b {
        a
    } else {
        b
    }
}

/// The sum of the scores of the first `n` pairs.
pub open spec fn weight_upto(params: Seq<StaticTypeV>, targets: Seq<StaticTypeV>, n: int) -> int
    decreases n,
{
    if n <= 0 {
        0
    } else {
        weight_upto(params, targets, n - 1) + score(params[n - 1], targets[n - 1])
    }
}

/// The sum of the scores of the pairs of arguments and parameters.
pub open spec fn weight(params: Seq<StaticTypeV>, targets: Seq<StaticTypeV>) -> int {
    weight_upto(params, targets, pairs(params.len() as int, targets.len() as int))
}

proof fn lemma_weight_bound(params: Seq<StaticTypeV>, targets: Seq<StaticTypeV>, n: int)
    requires
        0 <= n,
    ensures
        -n <= weight_upto(params, targets, n) <= n,
    decreases n,
{
    if n > 0 {
        lemma_weight_bound(params, targets, n - 1);
    }
}

/// Every argument is compatible with the parameter beside it.
pub open spec fn callable(params: Seq<StaticTypeV>, targets: Seq<StaticTypeV>) -> bool {
    forall|i: int| 0 <= i < pairs(params.len() as int, targets.len() as int) ==> compatible(params[i], targets[i])
}

/// Every argument is the type of the parameter beside it.
pub open spec fn callable_exactly(params: Seq<StaticTypeV>, targets: Seq<StaticTypeV>) -> bool {
    forall|i: int| 0 <= i < pairs(params.len() as int, targets.len() as int) ==> params[i] == targets[i]
}

/// The sum of the scores of the arguments against the parameters of a
/// signature.
pub fn compute_selectivity_weight(params: &Vec<StaticType>, target_sig: &FuncSignature) -> (r: i32)
    requires
        pairs(params@.len() as int, target_sig.1@.len() as int) <= 0x7fff_ffff,
    ensures
        r == weight(types_view(params@), types_view(target_sig.1@)),
{
    let n = if params.len() <= target_sig.1.len() {
        params.len()
    } else {
        target_sig.1.len()
    };
    let ghost p = types_view(params@);
    let ghost t = types_view(target_sig.1@);
    let mut sum: i32 = 0;
    let mut i: usize = 0;
    while i < n
        invariant
            i <= n,
            n == pairs(params@.len() as int, target_sig.1@.len() as int),
            n <= 0x7fff_ffff,
            p == types_view(params@),
            t == types_view(target_sig.1@),
            sum == weight_upto(p, t, i as int),
        decreases n - i,
    {
        proof {
            lemma_weight_bound(p, t, i + 1);
        }
        let s = match_score(&params[i], &target_sig.1[i]);
        sum = sum + s;
        i = i + 1;
    }
    sum
}

/// Whether arguments of these types can be passed to a function of that
/// signature.
pub fn is_callable_with(params: &Vec<StaticType>, target_sig: &FuncSignature) -> (r: bool)
    ensures
        r == callable(types_view(params@), types_view(target_sig.1@)),
{
    let n = if params.len() <= target_sig.1.len() {
        params.len()
    } else {
        target_sig.1.len()
    };
    let mut i: usize = 0;
    while i < n
        invariant
            i <= n,
            n == pairs(params@.len() as int, target_sig.1@.len() as int),
            forall|j: int| 0 <= j < i ==> compatible(params@[j]@, target_sig.1@[j]@),
        decreases n - i,
    {
        if !is_compatible(params[i].duplicate(), target_sig.1[i].duplicate()) {
            assert(!compatible(types_view(params@)[i as int], types_view(target_sig.1@)[i as int]));
            return false;
        }
        i = i + 1;
    }
    true
}

/// Whether arguments of these types are exactly those of the signature.
pub fn is_callable_with_exactly(params: Vec<StaticType>, target_sig: &FuncSignature) -> (r: bool)
    ensures
        r == callable_exactly(types_view(params@), types_view(target_sig.1@)),
{
    let n = if params.len() <= target_sig.1.len() {
        params.len()
    } else {
        target_sig.1.len()
    };
    let mut i: usize = 0;
    while i < n
        invariant
            i <= n,
            n == pairs(params@.len() as int, target_sig.1@.len() as int),
            forall|j: int| 0 <= j < i ==> params@[j]@ == target_sig.1@[j]@,
        decreases n - i,
    {
        if !params[i].same(&target_sig.1[i]) {
            assert(types_view(params@)[i as int] != types_view(target_sig.1@)[i as int]);
            return false;
        }
        i = i + 1;
    }
    true
}

/// The weights of the signatures that the arguments can call, in order.
pub open spec fn callable_weights(args: Seq<StaticTypeV>, sigs: Seq<(StaticTypeV, Seq<StaticTypeV>)>) -> Seq<int>
    decreases sigs.len(),
{
    if sigs.len() == 0 {
        Seq::empty()
    } else {
        let w = callable_weights(args, sigs.drop_last());
        if callable(args, sigs.last().1) {
            w.push(weight(args, sigs.last().1))
        } else {
            w
        }
    }
}

/// The greatest of a non-empty list of numbers.
pub open spec fn seq_max(s: Seq<int>) -> int
    decreases s.len(),
{
    if s.len() <= 1 {
        s[0]
    } else {
        let m = seq_max(s.drop_last());
        if s.last() > m {
            s.last()
        } else {
            m
        }
    }
}

/// How many numbers of the list equal `v`.
pub open spec fn count_eq(s: Seq<int>, v: int) -> nat
    decreases s.len(),
{
    if s.len() == 0 {
        0
    } else {
        count_eq(s.drop_last(), v) + if s.last() == v { 1nat } else { 0nat }
    }
}

/// The signatures, as values.
pub open spec fn sigs_view(fs: Seq<FuncSignature>) -> Seq<(StaticTypeV, Seq<StaticTypeV>)> {
    fs.map_values(|f: FuncSignature| (f.0@, types_view(f.1@)))
}

/// A call is ambiguous when the best weight among the signatures it can call
/// is positive and more than one signature reaches it.
pub open spec fn ambiguous(args: Seq<StaticTypeV>, sigs: Seq<(StaticTypeV, Seq<StaticTypeV>)>) -> bool {
    let w = callable_weights(args, sigs);
    seq_max(w) > 0 && count_eq(w, seq_max(w)) > 1
}

proof fn lemma_callable_weights_bound(args: Seq<StaticTypeV>, sigs: Seq<(StaticTypeV, Seq<StaticTypeV>)>)
    ensures
        callable_weights(args, sigs).len() <= sigs.len(),
        forall|i: int| 0 <= i < callable_weights(args, sigs).len() ==> -(args.len() as int) <= #[trigger] callable_weights(args, sigs)[i] <= args.len(),
    decreases sigs.len(),
{
    if sigs.len() > 0 {
        lemma_callable_weights_bound(args, sigs.drop_last());
        let t = sigs.last().1;
        lemma_weight_bound(args, t, pairs(args.len() as int, t.len() as int));
    }
}

/// Whether a call with arguments of these types is ambiguous among the
/// signatures, some of which it can call.
pub fn is_this_call_ambiguous(args: Vec<StaticType>, functions: &Vec<FuncSignature>) -> (r: bool)
    requires
        callable_weights(types_view(args@), sigs_view(functions@)).len() > 0,
        args@.len() <= 0x7fff_ffff,
    ensures
        r == ambiguous(types_view(args@), sigs_view(functions@)),
{
    let ghost a = types_view(args@);
    let ghost sv = sigs_view(functions@);
    let mut weights: Vec<i32> = Vec::new();
    let mut i: usize = 0;
    while i < functions.len()
        invariant
            i <= functions.len(),
            a == types_view(args@),
            sv == sigs_view(functions@),
            args@.len() <= 0x7fff_ffff,
            weights@.map_values(|w: i32| w as int) == callable_weights(a, sv.take(i as int)),
        decreases functions.len() - i,
    {
        assert(sv.take(i + 1).drop_last() =~= sv.take(i as int));
        assert(sv[i as int].1 == types_view(functions@[i as int].1@));
        if is_callable_with(&args, &functions[i]) {
            proof {
                let t = sv[i as int].1;
                lemma_weight_bound(a, t, pairs(a.len() as int, t.len() as int));
            }
            let w = compute_selectivity_weight(&args, &functions[i]);
            let ghost before = weights@.map_values(|w: i32| w as int);
            weights.push(w);
            assert(weights@.map_values(|w: i32| w as int) =~= before.push(w as int));
        }
        i = i + 1;
    }
    assert(sv.take(functions.len() as int) =~= sv);
    let ghost ws = callable_weights(a, sv);
    // the greatest weight
    let mut best: i32 = weights[0];
    let mut j: usize = 1;
    while j < weights.len()
        invariant
            1 <= j <= weights.len(),
            weights@.map_values(|w: i32| w as int) == ws,
            best == seq_max(ws.take(j as int)),
        decreases weights.len() - j,
    {
        assert(ws.take(j + 1).drop_last() =~= ws.take(j as int));
        if weights[j] > best {
            best = weights[j];
        }
        j = j + 1;
    }
    assert(ws.take(weights.len() as int) =~= ws);
    // how many signatures reach it
    let mut count: usize = 0;
    let mut k: usize = 0;
    while k < weights.len()
        invariant
            k <= weights.len(),
            weights@.map_values(|w: i32| w as int) == ws,
            count == count_eq(ws.take(k as int), best as int),
            count <= k,
        decreases weights.len() - k,
    {
        assert(ws.take(k + 1).drop_last() =~= ws.take(k as int));
        if weights[k] == best {
            count = count + 1;
        }
        k = k + 1;
    }
    assert(ws.take(weights.len() as int) =~= ws);
    best > 0 && count > 1
}

/// Of two compatible types, the one that says more.
pub open spec fn precise(s1: StaticTypeV, s2: StaticTypeV) -> StaticTypeV {
    if s1 == StaticTypeV::Any {
        s2
    } else {
        s1
    }
}

fn most_precise_type(s1: StaticType, s2: StaticType) -> (r: StaticType)
    requires
        compatible(s1@, s2@),
    ensures
        r@ == precise(s1@, s2@),
{
    match s1 {
        StaticType::Any => s2,
        _ => s1,
    }
}

/// The number of triples that three lists make when laid side by side.
pub open spec fn triples(a: int, b: int, c: int) -> int {
    pairs(pairs(a, b), c)
}

/// Two signatures clash on a call: at each place the argument and both
/// parameters are compatible with one another.
pub open spec fn clash(args: Seq<StaticTypeV>, pi: Seq<StaticTypeV>, pj: Seq<StaticTypeV>) -> bool {
    forall|k: int|
        0 <= k < triples(args.len() as int, pi.len() as int, pj.len() as int) ==> {
            &&& compatible(pi[k], pj[k])
            &&& compatible(args[k], pi[k])
            &&& compatible(args[k], pj[k])
        }
}

/// The argument types made as precise as the two clashing signatures allow.
pub open spec fn enriched(args: Seq<StaticTypeV>, pi: Seq<StaticTypeV>, pj: Seq<StaticTypeV>) -> Seq<StaticTypeV> {
    Seq::new(
        triples(args.len() as int, pi.len() as int, pj.len() as int) as nat,
        |k: int| precise(precise(args[k], pi[k]), pj[k]),
    )
}

/// The parameter types of each signature.
pub open spec fn params_view(fs: Seq<FuncSignature>) -> Seq<Seq<StaticTypeV>> {
    fs.map_values(|f: FuncSignature| types_view(f.1@))
}

/// The first `j`, from `j` on, whose signature clashes with that of `i`.
pub open spec fn clash_row(args: Seq<StaticTypeV>, fs: Seq<Seq<StaticTypeV>>, i: int, j: int) -> Option<(int, int)>
    decreases fs.len() - j,
{
    if j < 0 || j >= fs.len() {
        None
    } else if clash(args, fs[i], fs[j]) {
        Some((i, j))
    } else {
        clash_row(args, fs, i, j + 1)
    }
}

/// The first pair of clashing signatures, searched from the `i`-th on: by
/// the first signature, then by the second one, which comes after it.
pub open spec fn clash_search(args: Seq<StaticTypeV>, fs: Seq<Seq<StaticTypeV>>, i: int) -> Option<(int, int)>
    decreases fs.len() - i,
{
    if i < 0 || i >= fs.len() {
        None
    } else {
        match clash_row(args, fs, i, i + 1) {
            Some(p) => Some(p),
            None => clash_search(args, fs, i + 1),
        }
    }
}

/// For a call that two signatures can both take, the argument types made as
/// precise as those two signatures allow; the first such pair is taken, in
/// the order of the first signature, then of the second.
pub fn compute_ambiguous_signature(args: Vec<StaticType>, functions: &Vec<FuncSignature>) -> (r: Option<Vec<StaticType>>)
    ensures
        match clash_search(types_view(args@), params_view(functions@), 0) {
            None => r is None,
            Some((i, j)) => r is Some && types_view(r->Some_0@) == enriched(
                types_view(args@),
                params_view(functions@)[i],
                params_view(functions@)[j],
            ),
        },
{
    let n = functions.len();
    let ghost a = types_view(args@);
    let ghost fs = params_view(functions@);
    let mut i: usize = 0;
    while i < n
        invariant
            i <= n,
            n == functions@.len(),
            a == types_view(args@),
            fs == params_view(functions@),
            clash_search(a, fs, 0) == clash_search(a, fs, i as int),
        decreases n - i,
    {
        let mut j: usize = i + 1;
        while j < n
            invariant
                i < n,
                i + 1 <= j <= n,
                n == functions@.len(),
                a == types_view(args@),
                fs == params_view(functions@),
                clash_search(a, fs, 0) == clash_search(a, fs, i as int),
                clash_row(a, fs, i as int, i + 1) == clash_row(a, fs, i as int, j as int),
            decreases n - j,
        {
            let f_i = &functions[i].1;
            let f_j = &functions[j].1;
            let ghost pi = types_view(f_i@);
            let ghost pj = types_view(f_j@);
            assert(pi == fs[i as int]);
            assert(pj == fs[j as int]);
            let mut m = args.len();
            if f_i.len() < m {
                m = f_i.len();
            }
            if f_j.len() < m {
                m = f_j.len();
            }
            assert(m == triples(a.len() as int, pi.len() as int, pj.len() as int));
            let mut k: usize = 0;
            let mut all = true;
            while k < m
                invariant
                    k <= m,
                    m == triples(a.len() as int, pi.len() as int, pj.len() as int),
                    m <= args@.len(),
                    m <= f_i@.len(),
                    m <= f_j@.len(),
                    a == types_view(args@),
                    pi == types_view(f_i@),
                    pj == types_view(f_j@),
                    all ==> forall|q: int|
                        0 <= q < k ==> {
                            &&& compatible(pi[q], pj[q])
                            &&& compatible(a[q], pi[q])
                            &&& compatible(a[q], pj[q])
                        },
                    !all ==> !clash(a, pi, pj),
                decreases m - k,
            {
                assert(pi[k as int] == f_i@[k as int]@);
                assert(pj[k as int] == f_j@[k as int]@);
                assert(a[k as int] == args@[k as int]@);
                if all {
                    let ok = is_compatible(f_i[k].duplicate(), f_j[k].duplicate())
                        && is_compatible(args[k].duplicate(), f_i[k].duplicate())
                        && is_compatible(args[k].duplicate(), f_j[k].duplicate());
                    if !ok {
                        all = false;
                        assert(!({
                            &&& compatible(pi[k as int], pj[k as int])
                            &&& compatible(a[k as int], pi[k as int])
                            &&& compatible(a[k as int], pj[k as int])
                        }));
                    }
                }
                k = k + 1;
            }
            if all {
                // the argument types, made precise by both signatures
                let mut out: Vec<StaticType> = Vec::new();
                let mut q: usize = 0;
                while q < m
                    invariant
                        q <= m,
                        m == triples(a.len() as int, pi.len() as int, pj.len() as int),
                        m <= args@.len(),
                        m <= f_i@.len(),
                        m <= f_j@.len(),
                        a == types_view(args@),
                        pi == types_view(f_i@),
                        pj == types_view(f_j@),
                        clash(a, pi, pj),
                        out@.len() == q,
                        forall|t: int| 0 <= t < q ==> #[trigger] out@[t]@ == precise(precise(a[t], pi[t]), pj[t]),
                    decreases m - q,
                {
                    assert(compatible(pi[q as int], pj[q as int]));
                    let s = most_precise_type(args[q].duplicate(), f_i[q].duplicate());
                    let s = most_precise_type(s, f_j[q].duplicate());
                    out.push(s);
                    q = q + 1;
                }
                assert(types_view(out@) =~= enriched(a, pi, pj));
                assert(clash_row(a, fs, i as int, j as int) == Some((i as int, j as int)));
                return Some(out);
            }
            j = j + 1;
        }
        assert(clash_row(a, fs, i as int, n as int) is None);
        i = i + 1;
    }
    None
}

/// How a list of types is shown: each as `::` and its name, separated by
/// commas.
pub open spec fn signature_text(ts: Seq<StaticTypeV>) -> Seq<char>
    decreases ts.len(),
{
    if ts.len() == 0 {
        Seq::empty()
    } else if ts.len() == 1 {
        "::"@ + type_text(ts[0])
    } else {
        signature_text(ts.drop_last()) + ", "@ + "::"@ + type_text(ts.last())
    }
}

/// A list of types as it is shown in messages.
pub fn format_signature(ts: Vec<StaticType>) -> (r: String)
    ensures
        r@ == signature_text(types_view(ts@)),
{
    proof {
        reveal_strlit("::");
        reveal_strlit(", ");
    }
    let ghost tv = types_view(ts@);
    let mut out = String::new();
    let mut i: usize = 0;
    while i < ts.len()
        invariant
            i <= ts.len(),
            tv == types_view(ts@),
            out@ == signature_text(tv.take(i as int)),
        decreases ts.len() - i,
    {
        assert(tv.take(i + 1).drop_last() =~= tv.take(i as int));
        if i > 0 {
            out.append(", ");
        }
        out.append("::");
        let t = ts[i].to_string();
        out.append(t.as_str());
        proof {
            if i == 0 {
                assert(out@ =~= "::"@ + type_text(tv[0]));
            } else {
                assert(out@ =~= signature_text(tv.take(i as int)) + ", "@ + "::"@ + type_text(tv[i as int]));
            }
        }
        i = i + 1;
    }
    assert(tv.take(ts.len() as int) =~= tv);
    out
}

/// The signature of a function: its return type and the types of its
/// parameters.
pub fn build_signature(f: &Function) -> (r: FuncSignature)
    ensures
        r.0@ == f.ret_ty@,
        types_view(r.1@) == f.params@.map_values(|p: crate::parser::ast::Param| p.ty@),
{
    let ret = f.ret_ty.duplicate();
    let mut params: Vec<StaticType> = Vec::new();
    let mut i: usize = 0;
    while i < f.params.len()
        invariant
            i <= f.params.len(),
            params@.len() == i,
            forall|t: int| 0 <= t < i ==> #[trigger] params@[t]@ == f.params@[t].ty@,
        decreases f.params.len() - i,
    {
        params.push(f.params[i].ty.duplicate());
        i = i + 1;
    }
    assert(types_view(params@) =~= f.params@.map_values(|p: crate::parser::ast::Param| p.ty@));
    (ret, params)
}

} // verus!
