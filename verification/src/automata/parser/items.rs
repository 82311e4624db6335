use vstd::prelude::*;

use super::types::{rules_view, Production, Symbol};

verus! {

broadcast use vstd::seq_lib::group_seq_properties;

/// Some production of `a` begins with `b`.
pub open spec fn first_edge(rules: Seq<(usize, Seq<Symbol>)>, a: usize, b: Symbol) -> bool {
    exists|r: int| 0 <= r < rules.len() && rules[r].0 == a && rules[r].1.len() > 0 && rules[r].1[0] == b
}

/// Some production of `a` begins with the non-terminal `b`.
pub open spec fn first_edge_n(rules: Seq<(usize, Seq<Symbol>)>, a: usize, b: usize) -> bool {
    first_edge(rules, a, Symbol::N(b))
}

/// A set of non-terminals that holds every non-terminal that begins a
/// production of one of its members.
pub open spec fn nts_closed(rules: Seq<(usize, Seq<Symbol>)>, w: Set<usize>) -> bool {
    forall|a: usize, b: usize| #![trigger w.contains(a), first_edge_n(rules, a, b)] w.contains(a) && first_edge_n(rules, a, b) ==> w.contains(b)
}

/// The non-terminals that can begin a word derived from `k0`, going only
/// through the first symbol of each production: those that every closed
/// set holding `k0` holds.
pub open spec fn first_reach(rules: Seq<(usize, Seq<Symbol>)>, k0: usize) -> Set<usize> {
    Set::new(|k: usize| forall|w: Set<usize>| #[trigger] nts_closed(rules, w) && w.contains(k0) ==> w.contains(k))
}

/// The terminals that begin a production of a non-terminal reachable from
/// `sym` (or `sym` itself, when it is a terminal).
pub open spec fn first_terms(rules: Seq<(usize, Seq<Symbol>)>, sym: Symbol) -> Set<usize> {
    match sym {
        Symbol::T(t) => set![t],
        Symbol::N(k0) => Set::new(
            |t: usize| exists|k: usize| first_reach(rules, k0).contains(k) && #[trigger] first_edge(rules, k, Symbol::T(t)),
        ),
    }
}

/// Whether production `p` begins with `s`.
pub open spec fn begins(p: (usize, Seq<Symbol>), s: Symbol) -> bool {
    p.1.len() > 0 && p.1[0] == s
}

/// Whether a vector holds a number.
pub fn contains_usize(v: &Vec<usize>, x: usize) -> (r: bool)
    ensures
        r == v@.contains(x),
{
    let mut i: usize = 0;
    while i < v.len()
        invariant
            i <= v@.len(),
            forall|j: int| 0 <= j < i ==> v@[j] != x,
        decreases v.len() - i,
    {
        if v[i] == x {
            return true;
        }
        i = i + 1;
    }
    false
}

/// The terminals that can begin a word derived from `sym`.
pub fn first(rules: &[Production], sym: &Symbol) -> (r: Vec<usize>)
    ensures
        r@.no_duplicates(),
        r@.to_set() == first_terms(rules_view(rules@), *sym),
{
    let ghost rv = rules_view(rules@);
    match sym {
        Symbol::T(k) => {
            let mut r: Vec<usize> = Vec::new();
            r.push(*k);
            assert(r@.to_set() =~= set![*k]);
            r
        },
        Symbol::N(k0) => {
            let mut visited: Vec<usize> = Vec::new();
            visited.push(*k0);
            let mut changed = true;
            while changed
                invariant
                    rv == rules_view(rules@),
                    visited@.len() <= usize::MAX,
                    visited@.contains(*k0),
                    forall|w: Set<usize>| #[trigger] nts_closed(rv, w) && w.contains(*k0) ==> visited@.to_set().subset_of(w),
                    !changed ==> nts_closed(rv, visited@.to_set()),
                decreases usize::MAX - visited@.len() + if changed { 1int } else { 0int },
            {
                changed = false;
                let ghost len0 = visited@.len();
                let mut i: usize = 0;
                while i < rules.len()
                    invariant
                        rv == rules_view(rules@),
                        i <= rules@.len(),
                        len0 <= visited@.len() <= usize::MAX,
                        visited@.contains(*k0),
                        changed ==> visited@.len() > len0,
                        forall|w: Set<usize>| #[trigger] nts_closed(rv, w) && w.contains(*k0) ==> visited@.to_set().subset_of(w),
                        !changed ==> visited@.len() == len0,
                        !changed ==> forall|j: int, b: usize|
                            0 <= j < i && visited@.contains(rv[j].0) && #[trigger] begins(rv[j], Symbol::N(b)) ==> visited@.contains(b),
                    decreases rules.len() - i,
                {
                    let rule = &rules[i];
                    let ghost v_old = visited@;
                    assert(rv[i as int] == (rule.symbol, rule.expand@));
                    if rule.expand.len() > 0 && contains_usize(&visited, rule.symbol) {
                        match rule.expand[0] {
                            Symbol::N(b) => {
                                if !contains_usize(&visited, b) {
                                    let ghost before = visited@;
                                    visited.push(b);
                                    let _n = visited.len();
                                    changed = true;
                                    proof {
                                        assert(first_edge_n(rv, rule.symbol, b));
                                        assert forall|w: Set<usize>| #[trigger] nts_closed(rv, w) && w.contains(*k0) implies visited@.to_set().subset_of(w) by {
                                            assert(before.to_set().subset_of(w));
                                            assert(w.contains(rule.symbol));
                                        }
                                    }
                                }
                            },
                            Symbol::T(_) => {},
                        }
                    }
                    if !changed {
                        assert forall|j: int, b: usize|
                            0 <= j < i + 1 && visited@.contains(rv[j].0) && #[trigger] begins(rv[j], Symbol::N(b)) implies visited@.contains(b) by {
                            assert(visited@ == v_old);
                        }
                    }
                    i = i + 1;
                }
                proof {
                    if !changed {
                        assert forall|a: usize, b: usize| #![trigger visited@.to_set().contains(a), first_edge_n(rv, a, b)]
                            visited@.to_set().contains(a) && first_edge_n(rv, a, b) implies visited@.to_set().contains(b) by {
                            let j = choose|j: int| 0 <= j < rv.len() && rv[j].0 == a && rv[j].1.len() > 0 && rv[j].1[0] == Symbol::N(b);
                            assert(begins(rv[j], Symbol::N(b)));
                            assert(visited@.contains(b));
                        }
                    }
                }
            }
            let ghost reach = first_reach(rv, *k0);
            proof {
                assert(reach =~= visited@.to_set()) by {
                    assert forall|k: usize| reach.contains(k) implies visited@.to_set().contains(k) by {
                        assert(nts_closed(rv, visited@.to_set()) && visited@.to_set().contains(*k0));
                    }
                    assert forall|k: usize| visited@.to_set().contains(k) implies reach.contains(k) by {
                        assert forall|w: Set<usize>| #[trigger] nts_closed(rv, w) && w.contains(*k0) implies w.contains(k) by {
                            assert(visited@.to_set().subset_of(w));
                        }
                    }
                }
            }
            let mut found: Vec<usize> = Vec::new();
            let mut i: usize = 0;
            while i < rules.len()
                invariant
                    rv == rules_view(rules@),
                    i <= rules@.len(),
                    reach == visited@.to_set(),
                    found@.no_duplicates(),
                    forall|t: usize|
                        found@.contains(t) <==> exists|j: int|
                            0 <= j < i && visited@.contains(rv[j].0) && #[trigger] begins(rv[j], Symbol::T(t)),
                decreases rules.len() - i,
            {
                let rule = &rules[i];
                assert(rv[i as int] == (rule.symbol, rule.expand@));
                if rule.expand.len() > 0 && contains_usize(&visited, rule.symbol) {
                    match rule.expand[0] {
                        Symbol::T(t) => {
                            if !contains_usize(&found, t) {
                                found.push(t);
                            }
                        },
                        Symbol::N(_) => {},
                    }
                }
                assert forall|t: usize|
                    found@.contains(t) <==> exists|j: int| 0 <= j < i + 1 && visited@.contains(rv[j].0) && #[trigger] begins(rv[j], Symbol::T(t)) by {
                    if found@.contains(t) && !(exists|j: int| 0 <= j < i && visited@.contains(rv[j].0) && #[trigger] begins(rv[j], Symbol::T(t))) {
                        assert(begins(rv[i as int], Symbol::T(t)));
                    }
                }
                i = i + 1;
            }
            proof {
                assert(found@.to_set() =~= first_terms(rv, *sym)) by {
                    assert forall|t: usize| found@.to_set().contains(t) implies first_terms(rv, *sym).contains(t) by {
                        let j = choose|j: int| 0 <= j < rules@.len() && visited@.contains(rv[j].0) && #[trigger] begins(rv[j], Symbol::T(t));
                        assert(first_edge(rv, rv[j].0, Symbol::T(t)));
                        assert(reach.contains(rv[j].0));
                    }
                    assert forall|t: usize| first_terms(rv, *sym).contains(t) implies found@.to_set().contains(t) by {
                        let k = choose|k: usize| first_reach(rv, *k0).contains(k) && #[trigger] first_edge(rv, k, Symbol::T(t));
                        let j = choose|j: int| 0 <= j < rv.len() && rv[j].0 == k && rv[j].1.len() > 0 && rv[j].1[0] == Symbol::T(t);
                        assert(visited@.to_set().contains(k));
                        assert(begins(rv[j], Symbol::T(t)));
                    }
                }
            }
            found
        },
    }
}

} // verus!

verus! {

/// An item of an LR automaton: a production with a position in it (a
/// "bullet"), possibly with more information.
pub trait LRItem: Sized {
    /// The production and the position of the bullet.
    spec fn spec_prod_and_pos(&self) -> (usize, usize);

    /// The item of the start state.
    spec fn spec_root() -> Self;

    /// The item with the bullet moved one symbol to the right.
    spec fn spec_move_bullet(&self) -> Self;

    /// The items that the closure adds for production `rule_id`, when this
    /// item has the non-terminal of that production after its bullet.
    spec fn spec_neighbors(&self, rule_id: usize, rules: Seq<(usize, Seq<Symbol>)>) -> Set<Self>;

    /// Whether a complete item reduces on terminal `term`.
    spec fn spec_reduce_on(&self, term: usize) -> bool;

    /// The root item is at the start of production 0.
    proof fn lemma_root()
        ensures
            Self::spec_root().spec_prod_and_pos() == (0usize, 0usize),
    ;

    /// Moving the bullet keeps the production and advances the position.
    proof fn lemma_move_bullet(&self)
        requires
            self.spec_prod_and_pos().1 < usize::MAX,
        ensures
            self.spec_move_bullet().spec_prod_and_pos() == (self.spec_prod_and_pos().0, (self.spec_prod_and_pos().1
                + 1) as usize),
    ;

    /// The items added for production `rule_id` are at its start.
    proof fn lemma_neighbors(&self, rule_id: usize, rules: Seq<(usize, Seq<Symbol>)>)
        ensures
            forall|x: Self| #[trigger] self.spec_neighbors(rule_id, rules).contains(x) ==> x.spec_prod_and_pos() == (rule_id, 0usize),
    ;

    fn root() -> (r: Self)
        ensures
            r == Self::spec_root(),
    ;

    fn prod_and_pos(&self) -> (r: (usize, usize))
        ensures
            r == self.spec_prod_and_pos(),
    ;

    fn neighbor_items(&self, rule_id: usize, rules: &[Production]) -> (r: Vec<Self>)
        requires
            self.spec_prod_and_pos().0 < rules@.len(),
        ensures
            r@.to_set() == self.spec_neighbors(rule_id, rules_view(rules@)),
    ;

    fn move_bullet(&self) -> (r: Self)
        requires
            self.spec_prod_and_pos().1 < usize::MAX,
        ensures
            r == self.spec_move_bullet(),
    ;

    fn reduce_on(&self, term: usize) -> (r: bool)
        ensures
            r == self.spec_reduce_on(term),
    ;

    /// Whether two items are the same.
    fn same(&self, other: &Self) -> (r: bool)
        ensures
            r == (*self == *other),
    ;

    /// A copy of the item.
    fn duplicate(&self) -> (r: Self)
        ensures
            r == *self,
    ;
}

/// An LR(0) item: a production and the position of the bullet.
pub type LR0Item = (usize, usize);

/// An LR(0) item with one terminal of lookahead.
pub type LR1Item = (usize, usize, usize);

impl LRItem for (usize, usize) {
    open spec fn spec_prod_and_pos(&self) -> (usize, usize) {
        *self
    }

    open spec fn spec_root() -> Self {
        (0, 0)
    }

    open spec fn spec_move_bullet(&self) -> Self {
        (self.0, (self.1 + 1) as usize)
    }

    open spec fn spec_neighbors(&self, rule_id: usize, rules: Seq<(usize, Seq<Symbol>)>) -> Set<Self> {
        set![(rule_id, 0usize)]
    }

    open spec fn spec_reduce_on(&self, term: usize) -> bool {
        true
    }

    proof fn lemma_root() {
    }

    proof fn lemma_move_bullet(&self) {
    }

    proof fn lemma_neighbors(&self, rule_id: usize, rules: Seq<(usize, Seq<Symbol>)>) {
    }

    fn root() -> (r: Self) {
        (0, 0)
    }

    fn prod_and_pos(&self) -> (r: (usize, usize)) {
        *self
    }

    fn neighbor_items(&self, rule_id: usize, rules: &[Production]) -> (r: Vec<Self>) {
        let mut r: Vec<(usize, usize)> = Vec::new();
        r.push((rule_id, 0));
        assert(r@.to_set() =~= set![(rule_id, 0usize)]);
        r
    }

    fn move_bullet(&self) -> (r: Self) {
        (self.0, self.1 + 1)
    }

    fn reduce_on(&self, term: usize) -> (r: bool) {
        true
    }

    fn same(&self, other: &Self) -> (r: bool) {
        self.0 == other.0 && self.1 == other.1
    }

    fn duplicate(&self) -> (r: Self) {
        (self.0, self.1)
    }
}

/// The lookaheads of the items that the closure adds: the FIRST set of the
/// symbol after the non-terminal that follows the bullet, or the item's
/// own lookahead when that non-terminal ends the production.
pub open spec fn lr1_lookaheads(item: (usize, usize, usize), rules: Seq<(usize, Seq<Symbol>)>) -> Set<usize> {
    let expand = rules[item.0 as int].1;
    if item.1 + 1 < expand.len() {
        first_terms(rules, expand[item.1 + 1])
    } else {
        set![item.2]
    }
}

/// The items at the start of production `rule_id` with a lookahead in `la`.
pub open spec fn lr1_items(rule_id: usize, la: Set<usize>) -> Set<(usize, usize, usize)> {
    Set::new(|x: (usize, usize, usize)| x.0 == rule_id && x.1 == 0 && la.contains(x.2))
}

impl LRItem for (usize, usize, usize) {
    open spec fn spec_prod_and_pos(&self) -> (usize, usize) {
        (self.0, self.1)
    }

    open spec fn spec_root() -> Self {
        (0, 0, 0)
    }

    open spec fn spec_move_bullet(&self) -> Self {
        (self.0, (self.1 + 1) as usize, self.2)
    }

    open spec fn spec_neighbors(&self, rule_id: usize, rules: Seq<(usize, Seq<Symbol>)>) -> Set<Self> {
        lr1_items(rule_id, lr1_lookaheads(*self, rules))
    }

    open spec fn spec_reduce_on(&self, term: usize) -> bool {
        term == self.2
    }

    proof fn lemma_root() {
    }

    proof fn lemma_move_bullet(&self) {
    }

    proof fn lemma_neighbors(&self, rule_id: usize, rules: Seq<(usize, Seq<Symbol>)>) {
    }

    fn root() -> (r: Self) {
        (0, 0, 0)
    }

    fn prod_and_pos(&self) -> (r: (usize, usize)) {
        (self.0, self.1)
    }

    fn neighbor_items(&self, rule_id: usize, rules: &[Production]) -> (r: Vec<Self>) {
        let ghost rv = rules_view(rules@);
        let expand = &rules[self.0].expand;
        assert(rv[self.0 as int].1 == expand@);
        let mut r: Vec<(usize, usize, usize)> = Vec::new();
        if self.1 < expand.len() && self.1 + 1 < expand.len() {
            let terms = first(rules, &expand[self.1 + 1]);
            let mut i: usize = 0;
            assert(r@.to_set() =~= lr1_items(rule_id, terms@.take(0).to_set()));
            while i < terms.len()
                invariant
                    i <= terms@.len(),
                    r@.to_set() == lr1_items(rule_id, terms@.take(i as int).to_set()),
                decreases terms.len() - i,
            {
                let ghost prev = r@;
                r.push((rule_id, 0, terms[i]));
                assert(terms@.take(i + 1) =~= terms@.take(i as int).push(terms@[i as int]));
                assert forall|x: (usize, usize, usize)| r@.to_set().contains(x) <==> lr1_items(rule_id, terms@.take(i + 1).to_set()).contains(x) by {
                    assert(r@.contains(x) <==> prev.contains(x) || x == (rule_id, 0usize, terms@[i as int]));
                    assert(terms@.take(i + 1).contains(x.2) <==> terms@.take(i as int).contains(x.2) || x.2 == terms@[i as int]);
                    assert(prev.to_set().contains(x) <==> lr1_items(rule_id, terms@.take(i as int).to_set()).contains(x));
                }
                assert(r@.to_set() =~= lr1_items(rule_id, terms@.take(i + 1).to_set()));
                i = i + 1;
            }
            assert(terms@.take(terms@.len() as int) =~= terms@);
            assert(r@.to_set() =~= lr1_items(rule_id, lr1_lookaheads(*self, rv)));
        } else {
            r.push((rule_id, 0, self.2));
            assert(r@.to_set() =~= lr1_items(rule_id, lr1_lookaheads(*self, rv)));
        }
        r
    }

    fn move_bullet(&self) -> (r: Self) {
        (self.0, self.1 + 1, self.2)
    }

    fn reduce_on(&self, term: usize) -> (r: bool) {
        term == self.2
    }

    fn same(&self, other: &Self) -> (r: bool) {
        self.0 == other.0 && self.1 == other.1 && self.2 == other.2
    }

    fn duplicate(&self) -> (r: Self) {
        (self.0, self.1, self.2)
    }
}

} // verus!
