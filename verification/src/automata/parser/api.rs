use vstd::prelude::*;

use super::builder::{lr_automaton, lr_conflict_free, table_of, Builder};
use super::items::LR1Item;
use super::types::{machine_view, rules_view, MachineTable, Production, Symbol};
use crate::text::str_eq;

verus! {

/// The index of the first occurrence of `n` in `names`, if any.
pub open spec fn name_pos(names: Seq<&str>, n: Seq<char>) -> Option<nat>
    decreases names.len(),
{
    if names.len() == 0 {
        None
    } else if names[0]@ == n {
        Some(0)
    } else {
        match name_pos(names.drop_first(), n) {
            Some(i) => Some(i + 1),
            None => None,
        }
    }
}

/// The symbol a name stands for: terminal `i + 1` for the terminal at
/// index `i`, else non-terminal `i + 1` for the non-terminal at index `i`.
pub open spec fn symbol_of(terms: Seq<&str>, nterms: Seq<&str>, n: Seq<char>) -> Symbol {
    match name_pos(terms, n) {
        Some(i) => Symbol::T((i + 1) as usize),
        None => Symbol::N((name_pos(nterms, n)->0 + 1) as usize),
    }
}

/// The productions of the grammar: production 0 expands to the start
/// symbol followed by the end of input (terminal 0); then one per given
/// production.
pub open spec fn grammar_rules(
    terms: Seq<&str>,
    nterms: Seq<&str>,
    prods: Seq<(&str, Vec<&str>)>,
    start: Seq<char>,
) -> Seq<(usize, Seq<Symbol>)> {
    seq![(0usize, seq![Symbol::N((name_pos(nterms, start)->0 + 1) as usize), Symbol::T(0)])] + Seq::new(
        prods.len(),
        |p: int|
            (
                (name_pos(nterms, prods[p].0@)->0 + 1) as usize,
                Seq::new(prods[p].1@.len(), |j: int| symbol_of(terms, nterms, prods[p].1@[j]@)),
            ),
    )
}

/// Every name that the grammar uses is declared.
pub open spec fn names_known(terms: Seq<&str>, nterms: Seq<&str>, prods: Seq<(&str, Vec<&str>)>, start: Seq<char>) -> bool {
    &&& name_pos(nterms, start) is Some
    &&& forall|p: int|
        0 <= p < prods.len() ==> {
            &&& name_pos(nterms, (#[trigger] prods[p]).0@) is Some
            &&& prods[p].1@.len() < usize::MAX
            &&& forall|j: int|
                0 <= j < prods[p].1@.len() ==> name_pos(terms, prods[p].1@[j]@) is Some || name_pos(nterms, prods[p].1@[j]@) is Some
        }
}

proof fn lemma_name_pos_bound(names: Seq<&str>, n: Seq<char>)
    ensures
        name_pos(names, n) matches Some(i) ==> i < names.len() && names[i as int]@ == n,
        name_pos(names, n) is None ==> forall|j: int| 0 <= j < names.len() ==> names[j]@ != n,
    decreases names.len(),
{
    if names.len() > 0 {
        lemma_name_pos_bound(names.drop_first(), n);
        if names[0]@ != n {
            assert forall|j: int| 0 <= j < names.len() && names[j]@ == n implies name_pos(names, n) is Some by {
                assert(names.drop_first()[j - 1]@ == n);
            }
        }
    }
}

/// The position of `n` in `names`, if any.
fn position(names: &[&str], n: &str) -> (r: Option<usize>)
    ensures
        r matches Some(i) ==> name_pos(names@, n@) == Some(i as nat),
        r is None ==> name_pos(names@, n@) is None,
{
    let mut i: usize = 0;
    assert(names@.skip(0) =~= names@);
    while i < names.len()
        invariant
            i <= names@.len(),
            name_pos(names@, n@) == match name_pos(names@.skip(i as int), n@) {
                Some(k) => Some((k + i) as nat),
                None => None::<nat>,
            },
        decreases names.len() - i,
    {
        assert(names@.skip(i as int).drop_first() =~= names@.skip(i + 1));
        assert(names@.skip(i as int)[0] == names@[i as int]);
        if str_eq(names[i], n) {
            return Some(i);
        }
        i = i + 1;
    }
    assert(names@.skip(i as int) =~= Seq::<&str>::empty());
    None
}

/// `d` holds the productions `rules` with their LR(1) parsing table.
pub open spec fn pda_data_of(rules: Seq<(usize, Seq<Symbol>)>, tc: usize, nc: usize, d: (Vec<Production>, MachineTable)) -> bool {
    &&& rules_view(d.0@) == rules
    &&& exists|sets: Seq<Set<LR1Item>>, trans: Seq<Seq<(Symbol, usize)>>|
        {
            &&& lr_automaton(rules, tc, nc, sets, trans)
            &&& table_of(rules, tc, nc, sets, trans, machine_view(d.1@))
        }
}

/// The productions of a grammar given by names, with its parsing table
/// (LR(1)); the grammar's automaton must be free of conflicts.
#[verifier::spinoff_prover]
pub fn build_pda_data(terms: &[&str], nterms: &[&str], prods: &[(&str, Vec<&str>)], start: &str) -> (r: (Vec<Production>, MachineTable))
    requires
        names_known(terms@, nterms@, prods@, start@),
        terms@.len() < usize::MAX,
        nterms@.len() < usize::MAX,
        lr_conflict_free::<LR1Item>(
            grammar_rules(terms@, nterms@, prods@, start@),
            (terms@.len() + 1) as usize,
            (nterms@.len() + 1) as usize,
        ),
    ensures
        pda_data_of(grammar_rules(terms@, nterms@, prods@, start@), (terms@.len() + 1) as usize, (nterms@.len() + 1) as usize, r),
{
    let ghost rules_spec = grammar_rules(terms@, nterms@, prods@, start@);
    let term_count = 1 + terms.len();
    let nterm_count = 1 + nterms.len();
    let mut rules: Vec<Production> = Vec::new();
    let s = match position(nterms, start) {
        Some(i) => i,
        None => 0,
    };
    proof {
        lemma_name_pos_bound(nterms@, start@);
    }
    let mut first_expand: Vec<Symbol> = Vec::new();
    first_expand.push(Symbol::N(s + 1));
    first_expand.push(Symbol::T(0));
    rules.push(Production { symbol: 0, expand: first_expand });
    assert(rules_spec.len() == prods@.len() + 1);
    assert(rules_spec[0] == (0usize, seq![Symbol::N((name_pos(nterms@, start@)->0 + 1) as usize), Symbol::T(0)]));
    assert(rules_view(rules@)[0] == (0usize, first_expand@));
    assert(first_expand@ =~= seq![Symbol::N((name_pos(nterms@, start@)->0 + 1) as usize), Symbol::T(0)]);
    assert(rules_view(rules@) =~= rules_spec.take(1));
    let mut p: usize = 0;
    while p < prods.len()
        invariant
            p <= prods@.len(),
            names_known(terms@, nterms@, prods@, start@),
            terms@.len() < usize::MAX,
            nterms@.len() < usize::MAX,
            rules_spec == grammar_rules(terms@, nterms@, prods@, start@),
            rules_spec.len() == prods@.len() + 1,
            rules@.len() == p + 1,
            rules_view(rules@) == rules_spec.take(p + 1),
        decreases prods.len() - p,
    {
        let (lhs, rhs) = &prods[p];
        assert(name_pos(nterms@, prods@[p as int].0@) is Some);
        proof {
            lemma_name_pos_bound(nterms@, lhs@);
        }
        let symbol = match position(nterms, lhs) {
            Some(i) => i + 1,
            None => 0,
        };
        let mut expand: Vec<Symbol> = Vec::new();
        let mut j: usize = 0;
        while j < rhs.len()
            invariant
                j <= rhs@.len(),
                p < prods@.len(),
                *rhs == prods@[p as int].1,
                names_known(terms@, nterms@, prods@, start@),
                terms@.len() < usize::MAX,
                nterms@.len() < usize::MAX,
                expand@ == Seq::new(j as nat, |q: int| symbol_of(terms@, nterms@, rhs@[q]@)),
            decreases rhs.len() - j,
        {
            let name = rhs[j];
            proof {
                lemma_name_pos_bound(terms@, name@);
                lemma_name_pos_bound(nterms@, name@);
            }
            let sym = match position(terms, name) {
                Some(k) => Symbol::T(k + 1),
                None => match position(nterms, name) {
                    Some(k) => Symbol::N(k + 1),
                    None => Symbol::N(0),
                },
            };
            expand.push(sym);
            j = j + 1;
            assert(expand@ =~= Seq::new(j as nat, |q: int| symbol_of(terms@, nterms@, rhs@[q]@)));
        }
        let ghost before = rules@;
        let ghost ev = expand@;
        rules.push(Production { symbol, expand });
        assert(rules_view(rules@) =~= rules_spec.take(p + 2)) by {
            assert(rules_spec[p + 1] == ((name_pos(nterms@, prods@[p as int].0@)->0 + 1) as usize, Seq::new(prods@[p as int].1@.len(), |j: int| symbol_of(terms@, nterms@, prods@[p as int].1@[j]@))));
            assert(ev =~= Seq::new(prods@[p as int].1@.len(), |j: int| symbol_of(terms@, nterms@, prods@[p as int].1@[j]@)));
            assert(rules_view(rules@)[p + 1] == (symbol, ev));
            assert(rules_view(rules@)[p + 1] == rules_spec[p + 1]);
            assert forall|q: int| 0 <= q < p + 1 implies rules_view(rules@)[q] == rules_spec.take(p + 2)[q] by {
                assert(rules_view(rules@)[q] == rules_view(before)[q]);
            }
        }
        p = p + 1;
    }
    assert(rules_spec.take(prods@.len() + 1int) =~= rules_spec);
    let rs = rules.as_slice();
    let mut builder = Builder::<LR1Item>::new(rs, term_count, nterm_count);
    proof {
        assert(rs@ == rules@);
        assert(rules_spec.len() == prods@.len() + 1);
        assert forall|q: int| 0 <= q < rules_spec.len() implies (#[trigger] rules_spec[q]).1.len() < usize::MAX by {
            if q > 0 {
                assert(prods@[q - 1].1@.len() < usize::MAX);
            }
        }
    }
    let table = builder.build();
    (rules, table)
}

} // verus!
