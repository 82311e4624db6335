use vstd::prelude::*;

use super::items::LRItem;
use super::types::{machine_view, rules_view, Action, Goto, MachineTable, Production, Symbol};
use crate::text::owned;

verus! {

broadcast use vstd::seq_lib::group_seq_properties;

/// The item points inside one of the productions.
pub open spec fn valid_item<I: LRItem>(rules: Seq<(usize, Seq<Symbol>)>, x: I) -> bool {
    let (p, pos) = x.spec_prod_and_pos();
    p < rules.len() && pos <= rules[p as int].1.len()
}

/// The symbol after the bullet of an item, if any.
pub open spec fn next_sym<I: LRItem>(rules: Seq<(usize, Seq<Symbol>)>, x: I) -> Option<Symbol> {
    let (p, pos) = x.spec_prod_and_pos();
    if pos < rules[p as int].1.len() {
        Some(rules[p as int].1[pos as int])
    } else {
        None
    }
}

/// The items that the closure adds because of `x`: when a non-terminal
/// follows the bullet, the items that each of its productions gives.
pub open spec fn item_neighbors<I: LRItem>(rules: Seq<(usize, Seq<Symbol>)>, x: I) -> Set<I> {
    match next_sym(rules, x) {
        Some(Symbol::N(id)) => Set::new(
            |y: I| exists|r: int| 0 <= r < rules.len() && rules[r].0 == id && #[trigger] x.spec_neighbors(r as usize, rules).contains(y),
        ),
        _ => Set::empty(),
    }
}

/// A set of items that holds what the closure adds for each of them.
pub open spec fn items_closed<I: LRItem>(rules: Seq<(usize, Seq<Symbol>)>, w: Set<I>) -> bool {
    forall|x: I, y: I| #![trigger w.contains(x), item_neighbors(rules, x).contains(y)] w.contains(x) && item_neighbors(rules, x).contains(y) ==> w.contains(y)
}

/// The closure of a set of items: what every closed set that holds `s`
/// holds.
pub open spec fn closure_of<I: LRItem>(rules: Seq<(usize, Seq<Symbol>)>, s: Set<I>) -> Set<I> {
    Set::new(|y: I| forall|w: Set<I>| #[trigger] items_closed(rules, w) && s.subset_of(w) ==> w.contains(y))
}

/// The items of `s` that have `sym` after their bullet, with the bullet
/// moved past it.
pub open spec fn moved<I: LRItem>(rules: Seq<(usize, Seq<Symbol>)>, s: Set<I>, sym: Symbol) -> Set<I> {
    Set::new(|y: I| exists|x: I| #[trigger] s.contains(x) && next_sym(rules, x) == Some(sym) && y == x.spec_move_bullet())
}

/// The state reached from state `s` by symbol `sym`.
pub open spec fn goto_set<I: LRItem>(rules: Seq<(usize, Seq<Symbol>)>, s: Set<I>, sym: Symbol) -> Set<I> {
    closure_of(rules, moved(rules, s, sym))
}

/// Every position of a production fits below `usize::MAX`.
pub open spec fn rules_fit(rules: Seq<(usize, Seq<Symbol>)>) -> bool {
    forall|r: int| 0 <= r < rules.len() ==> (#[trigger] rules[r]).1.len() < usize::MAX
}

spec fn all_valid<I: LRItem>(rules: Seq<(usize, Seq<Symbol>)>, v: Seq<I>) -> bool {
    forall|i: int| 0 <= i < v.len() ==> valid_item(rules, #[trigger] v[i])
}

/// Builds the LR automaton of a grammar, with items of type `I`.
pub struct Builder<'a, I> {
    rules: &'a [Production],
    term_count: usize,
    nterm_count: usize,
    sets: Vec<Vec<I>>,
    trans: Vec<Vec<(Symbol, usize)>>,
}

fn contains_item<I: LRItem>(v: &Vec<I>, x: &I) -> (r: bool)
    ensures
        r == v@.contains(*x),
{
    let mut i: usize = 0;
    while i < v.len()
        invariant
            i <= v@.len(),
            forall|j: int| 0 <= j < i ==> v@[j] != *x,
        decreases v.len() - i,
    {
        if v[i].same(x) {
            return true;
        }
        i = i + 1;
    }
    false
}

impl<'a, I: LRItem> Builder<'a, I> {
    /// The productions.
    pub closed spec fn spec_rules(&self) -> Seq<(usize, Seq<Symbol>)> {
        rules_view(self.rules@)
    }

    pub closed spec fn spec_term_count(&self) -> usize {
        self.term_count
    }

    pub closed spec fn spec_nterm_count(&self) -> usize {
        self.nterm_count
    }

    /// A builder for the grammar `rules` with `term_count` terminals and
    /// `nterm_count` non-terminals.
    pub fn new(rules: &'a [Production], term_count: usize, nterm_count: usize) -> (r: Builder<'a, I>)
        ensures
            r.spec_rules() == rules_view(rules@),
            r.spec_term_count() == term_count,
            r.spec_nterm_count() == nterm_count,
            r.fresh(),
    {
        Builder { rules, term_count, nterm_count, sets: Vec::new(), trans: Vec::new() }
    }

    /// The symbol after the bullet of an item, if any.
    fn next_token(&self, item: &I) -> (r: Option<Symbol>)
        requires
            valid_item(self.spec_rules(), *item),
        ensures
            r == next_sym(self.spec_rules(), *item),
    {
        let (prod_id, pos) = item.prod_and_pos();
        let rule = &self.rules[prod_id];
        assert(self.spec_rules()[prod_id as int].1 == rule.expand@);
        if pos < rule.expand.len() {
            Some(rule.expand[pos])
        } else {
            None
        }
    }

    /// The items that the closure adds because of `item`.
    fn neighbors(&self, item: &I) -> (r: Vec<I>)
        requires
            valid_item(self.spec_rules(), *item),
        ensures
            r@.to_set() == item_neighbors(self.spec_rules(), *item),
            all_valid(self.spec_rules(), r@),
    {
        let ghost rv = self.spec_rules();
        let mut r: Vec<I> = Vec::new();
        match self.next_token(item) {
            Some(Symbol::N(id)) => {
                let mut i: usize = 0;
                while i < self.rules.len()
                    invariant
                        rv == self.spec_rules(),
                        rv == rules_view(self.rules@),
                        valid_item(rv, *item),
                        next_sym(rv, *item) == Some(Symbol::N(id)),
                        i <= self.rules@.len(),
                        all_valid(rv, r@),
                        r@.to_set() == Set::new(
                            |y: I| exists|j: int| 0 <= j < i && rv[j].0 == id && #[trigger] item.spec_neighbors(j as usize, rv).contains(y),
                        ),
                    decreases self.rules.len() - i,
                {
                    assert(rv[i as int].0 == self.rules[i as int].symbol);
                    let ghost prev = r@;
                    if self.rules[i].symbol == id {
                        let more = item.neighbor_items(i, self.rules);
                        proof {
                            item.lemma_neighbors(i, rv);
                        }
                        let mut k: usize = 0;
                        while k < more.len()
                            invariant
                                k <= more@.len(),
                                i < rv.len(),
                                rv[i as int].1.len() >= 0,
                                forall|y: I| #[trigger] more@.to_set().contains(y) ==> y.spec_prod_and_pos() == (i, 0usize),
                                all_valid(rv, r@),
                                r@.to_set() == prev.to_set() + more@.take(k as int).to_set(),
                            decreases more.len() - k,
                        {
                            let y = more[k].duplicate();
                            assert(more@.to_set().contains(more@[k as int]));
                            let ghost before = r@;
                            r.push(y);
                            assert(more@.take(k + 1) =~= more@.take(k as int).push(more@[k as int]));
                            assert(r@.to_set() =~= prev.to_set() + more@.take(k + 1).to_set()) by {
                                assert forall|z: I| r@.to_set().contains(z) <==> (prev.to_set() + more@.take(k + 1).to_set()).contains(z) by {
                                    assert(r@.contains(z) <==> before.contains(z) || z == more@[k as int]);
                                    assert(before.to_set().contains(z) <==> prev.to_set().contains(z) || more@.take(k as int).to_set().contains(z));
                                    assert(more@.take(k + 1).contains(z) <==> more@.take(k as int).contains(z) || z == more@[k as int]);
                                }
                            }
                            k = k + 1;
                        }
                        assert(more@.take(more@.len() as int) =~= more@);
                        assert(r@.to_set() == prev.to_set() + item.spec_neighbors(i, rv));
                    } else {
                        assert(r@ == prev);
                    }
                    assert(r@.to_set() =~= Set::new(
                        |y: I| exists|j: int| 0 <= j < i + 1 && rv[j].0 == id && #[trigger] item.spec_neighbors(j as usize, rv).contains(y),
                    )) by {
                        assert forall|y: I| #[trigger] r@.to_set().contains(y) implies (exists|j: int| 0 <= j < i + 1 && rv[j].0 == id && #[trigger] item.spec_neighbors(j as usize, rv).contains(y)) by {
                            if prev.to_set().contains(y) {
                                let j = choose|j: int| 0 <= j < i && rv[j].0 == id && #[trigger] item.spec_neighbors(j as usize, rv).contains(y);
                                assert(0 <= j < i + 1 && rv[j].0 == id && item.spec_neighbors(j as usize, rv).contains(y));
                            } else {
                                assert(0 <= i < i + 1 && rv[i as int].0 == id && item.spec_neighbors((i as int) as usize, rv).contains(y));
                            }
                        }
                        assert forall|y: I| (exists|j: int| 0 <= j < i + 1 && rv[j].0 == id && #[trigger] item.spec_neighbors(j as usize, rv).contains(y)) implies #[trigger] r@.to_set().contains(y) by {
                            let j = choose|j: int| 0 <= j < i + 1 && rv[j].0 == id && #[trigger] item.spec_neighbors(j as usize, rv).contains(y);
                            if j < i {
                                assert(prev.to_set().contains(y));
                            } else {
                                assert(self.rules@[i as int].symbol == id);
                            }
                        }
                    }
                    i = i + 1;
                }
                assert(r@.to_set() =~= item_neighbors(rv, *item));
            },
            _ => {
                assert(r@.to_set() =~= item_neighbors(rv, *item));
            },
        }
        r
    }
}


impl<'a, I: LRItem> Builder<'a, I> {
    /// The closure of a set of items.
    fn closure(&self, set: Vec<I>) -> (r: Vec<I>)
        requires
            all_valid(self.spec_rules(), set@),
            set@.no_duplicates(),
        ensures
            r@.to_set() == closure_of(self.spec_rules(), set@.to_set()),
            r@.no_duplicates(),
            all_valid(self.spec_rules(), r@),
    {
        let ghost rv = self.spec_rules();
        let ghost s = set@.to_set();
        let mut r = set;
        let _n = r.len();
        let mut i: usize = 0;
        while i < r.len()
            invariant
                rv == self.spec_rules(),
                i <= r@.len() <= usize::MAX,
                all_valid(rv, r@),
                r@.no_duplicates(),
                s.subset_of(r@.to_set()),
                forall|w: Set<I>| #[trigger] items_closed(rv, w) && s.subset_of(w) ==> r@.to_set().subset_of(w),
                forall|j: int| 0 <= j < i ==> item_neighbors(rv, #[trigger] r@[j]).subset_of(r@.to_set()),
            decreases usize::MAX - r@.len(), r@.len() - i,
        {
            let ns = self.neighbors(&r[i]);
            let ghost xi = r@[i as int];
            let ghost r_start = r@;
            let mut k: usize = 0;
            while k < ns.len()
                invariant
                    rv == self.spec_rules(),
                    i < r_start.len() <= r@.len() <= usize::MAX,
                    k <= ns@.len(),
                    forall|j: int| 0 <= j < r_start.len() ==> r@[j] == r_start[j],
                    xi == r_start[i as int],
                    ns@.to_set() == item_neighbors(rv, xi),
                    all_valid(rv, ns@),
                    all_valid(rv, r@),
                    r@.no_duplicates(),
                    s.subset_of(r@.to_set()),
                    r_start.to_set().subset_of(r@.to_set()),
                    forall|w: Set<I>| #[trigger] items_closed(rv, w) && s.subset_of(w) ==> r@.to_set().subset_of(w),
                    forall|m: int| 0 <= m < k ==> r@.contains(#[trigger] ns@[m]),
                decreases ns.len() - k,
            {
                if !contains_item(&r, &ns[k]) {
                    let y = ns[k].duplicate();
                    let ghost before = r@;
                    r.push(y);
                    let _n = r.len();
                    proof {
                        assert(ns@.to_set().contains(ns@[k as int]));
                        assert forall|w: Set<I>| #[trigger] items_closed(rv, w) && s.subset_of(w) implies r@.to_set().subset_of(w) by {
                            assert(before.to_set().subset_of(w));
                            assert(before.contains(xi));
                            assert(w.contains(xi));
                            assert(item_neighbors(rv, xi).contains(y));
                        }
                        assert forall|a: int, b: int| 0 <= a < r@.len() && 0 <= b < r@.len() && a != b implies r@[a] != r@[b] by {
                            if a < before.len() && b < before.len() {
                            } else if a == before.len() {
                                assert(!before.contains(y));
                                assert(r@[b] == before[b]);
                            } else {
                                assert(!before.contains(y));
                                assert(r@[a] == before[a]);
                            }
                        }
                    }
                }
                k = k + 1;
            }
            proof {
                assert(item_neighbors(rv, r@[i as int]).subset_of(r@.to_set())) by {
                    assert forall|y: I| item_neighbors(rv, xi).contains(y) implies r@.to_set().contains(y) by {
                        assert(ns@.to_set().contains(y));
                        let m = choose|m: int| 0 <= m < ns@.len() && ns@[m] == y;
                        assert(r@.contains(ns@[m]));
                    }
                }
                assert forall|j: int| 0 <= j < i + 1 implies item_neighbors(rv, #[trigger] r@[j]).subset_of(r@.to_set()) by {
                    if j < i {
                        assert(r@[j] == r_start[j]);
                        assert(item_neighbors(rv, r_start[j]).subset_of(r_start.to_set()));
                    }
                }
            }
            i = i + 1;
        }
        proof {
            let c = closure_of(rv, s);
            assert(items_closed(rv, r@.to_set())) by {
                assert forall|x: I, y: I| #![trigger r@.to_set().contains(x), item_neighbors(rv, x).contains(y)]
                    r@.to_set().contains(x) && item_neighbors(rv, x).contains(y) implies r@.to_set().contains(y) by {
                    let j = choose|j: int| 0 <= j < r@.len() && r@[j] == x;
                    assert(item_neighbors(rv, r@[j]).subset_of(r@.to_set()));
                }
            }
            assert(c =~= r@.to_set()) by {
                assert forall|y: I| c.contains(y) implies r@.to_set().contains(y) by {
                    assert(items_closed(rv, r@.to_set()) && s.subset_of(r@.to_set()));
                }
                assert forall|y: I| r@.to_set().contains(y) implies c.contains(y) by {
                    assert forall|w: Set<I>| #[trigger] items_closed(rv, w) && s.subset_of(w) implies w.contains(y) by {
                        assert(r@.to_set().subset_of(w));
                    }
                }
            }
        }
        r
    }
}


/// Whether some transition of the row is on `s`.
pub open spec fn has_sym(row: Seq<(Symbol, usize)>, s: Symbol) -> bool {
    exists|i: int| 0 <= i < row.len() && #[trigger] row[i].0 == s
}

/// `s` is one of the symbols of the grammar.
pub open spec fn sym_ok(tc: usize, nc: usize, s: Symbol) -> bool {
    match s {
        Symbol::T(k) => k < tc,
        Symbol::N(k) => k < nc,
    }
}

/// The row describes the transitions of state `sets[q]`: one on each
/// symbol whose goto set is not empty, to the state that is that set.
pub open spec fn lr_row<I: LRItem>(
    rules: Seq<(usize, Seq<Symbol>)>,
    tc: usize,
    nc: usize,
    sets: Seq<Set<I>>,
    q: int,
    row: Seq<(Symbol, usize)>,
) -> bool {
    &&& forall|i: int, j: int| 0 <= i < j < row.len() ==> row[i].0 != row[j].0
    &&& forall|s: Symbol| sym_ok(tc, nc, s) ==> (goto_set(rules, sets[q], s) != Set::<I>::empty() <==> has_sym(row, s))
    &&& forall|i: int|
        0 <= i < row.len() ==> sym_ok(tc, nc, (#[trigger] row[i]).0) && row[i].1 < sets.len() && sets[row[i].1 as int]
            == goto_set(rules, sets[q], row[i].0)
}

/// Whether the sets are pairwise different.
pub open spec fn distinct_item_sets<I>(sets: Seq<Set<I>>) -> bool {
    forall|i: int, j: int| 0 <= i < sets.len() && 0 <= j < sets.len() && i != j ==> sets[i] != sets[j]
}

/// The LR automaton of the grammar: state 0 is the closure of the root
/// item, no two states are the same set, each state has its transitions,
/// and the states are numbered depth first from state 0.
pub open spec fn lr_automaton<I: LRItem>(
    rules: Seq<(usize, Seq<Symbol>)>,
    tc: usize,
    nc: usize,
    sets: Seq<Set<I>>,
    trans: Seq<Seq<(Symbol, usize)>>,
) -> bool {
    &&& sets.len() == trans.len()
    &&& sets.len() > 0
    &&& sets[0] == closure_of(rules, set![I::spec_root()])
    &&& distinct_item_sets(sets)
    &&& forall|q: int| 0 <= q < sets.len() ==> lr_row(rules, tc, nc, sets, q, #[trigger] trans[q])
    &&& numbered_depth_first(tc, trans)
}

/// The place of a symbol in the order in which a state's transitions are
/// built: the terminals first, then the non-terminals, each by number.
pub open spec fn sym_rank(tc: usize, s: Symbol) -> int {
    match s {
        Symbol::T(j) => j as int,
        Symbol::N(j) => tc + j,
    }
}

/// The transitions of a row come in the order of their symbols.
pub open spec fn row_ranked(tc: usize, row: Seq<(Symbol, usize)>) -> bool {
    forall|i: int, j: int| 0 <= i < j < row.len() ==> sym_rank(tc, #[trigger] row[i].0) < sym_rank(tc, #[trigger] row[j].0)
}

/// A depth-first walk over the first `j` transitions of `row`, where
/// `start` is the number that the next new state gets: a transition leads
/// either to a state already numbered, or to the new state numbered
/// `start`, whose own row is walked at once. The number the next new state
/// gets after the walk, or `None` where the numbering is not that of the
/// walk.
pub open spec fn dfs_scan(trans: Seq<Seq<(Symbol, usize)>>, row: Seq<(Symbol, usize)>, j: int, start: int) -> Option<int>
    decreases trans.len() - start, j,
    when 0 <= start <= trans.len() && 0 <= j <= row.len()
{
    if j == 0 {
        Some(start)
    } else {
        match dfs_scan(trans, row, j - 1, start) {
            Some(c) => {
                let x = row[j - 1].1 as int;
                if x < c {
                    Some(c)
                } else if x == c && start <= c < trans.len() {
                    dfs_scan(trans, trans[c], trans[c].len() as int, c + 1)
                } else {
                    None
                }
            },
            None => None,
        }
    }
}

/// States are numbered in the order in which a depth-first walk from
/// state 0 finds them, each state's transitions taken in the order of
/// their symbols; every state is found.
pub open spec fn numbered_depth_first(tc: usize, trans: Seq<Seq<(Symbol, usize)>>) -> bool {
    &&& trans.len() > 0
    &&& forall|q: int| 0 <= q < trans.len() ==> row_ranked(tc, #[trigger] trans[q])
    &&& dfs_scan(trans, trans[0], trans[0].len() as int, 1) == Some(trans.len() as int)
}

/// A walk ends on a number between its start and the number of rows.
proof fn lemma_dfs_scan_bounds(trans: Seq<Seq<(Symbol, usize)>>, row: Seq<(Symbol, usize)>, j: int, start: int, m: int)
    requires
        0 <= start <= trans.len(),
        0 <= j <= row.len(),
        dfs_scan(trans, row, j, start) == Some(m),
    ensures
        start <= m <= trans.len(),
    decreases trans.len() - start, j,
{
    if j > 0 {
        let c = dfs_scan(trans, row, j - 1, start)->Some_0;
        lemma_dfs_scan_bounds(trans, row, j - 1, start, c);
        let x = row[j - 1].1 as int;
        if x == c && x < trans.len() {
            lemma_dfs_scan_bounds(trans, trans[c], trans[c].len() as int, c + 1, m);
        }
    }
}

/// A walk reads only the rows of the states it numbers.
proof fn lemma_dfs_scan_frame(
    t1: Seq<Seq<(Symbol, usize)>>,
    t2: Seq<Seq<(Symbol, usize)>>,
    row: Seq<(Symbol, usize)>,
    j: int,
    start: int,
    m: int,
)
    requires
        0 <= start <= t1.len(),
        0 <= j <= row.len(),
        dfs_scan(t1, row, j, start) == Some(m),
        m <= t2.len(),
        forall|q: int| start <= q < m ==> t2[q] == t1[q],
    ensures
        dfs_scan(t2, row, j, start) == Some(m),
    decreases t1.len() - start, j,
{
    lemma_dfs_scan_bounds(t1, row, j, start, m);
    if j > 0 {
        let c = dfs_scan(t1, row, j - 1, start)->Some_0;
        lemma_dfs_scan_bounds(t1, row, j - 1, start, c);
        let x = row[j - 1].1 as int;
        if x == c && start <= c < t1.len() {
            lemma_dfs_scan_bounds(t1, t1[c], t1[c].len() as int, c + 1, m);
            lemma_dfs_scan_frame(t1, t2, row, j - 1, start, c);
            assert(t2[c] == t1[c]);
            lemma_dfs_scan_frame(t1, t2, t1[c], t1[c].len() as int, c + 1, m);
        } else {
            lemma_dfs_scan_frame(t1, t2, row, j - 1, start, m);
        }
    }
}

/// A walk over a prefix of a row is the walk over the same prefix of a
/// longer row.
proof fn lemma_dfs_scan_prefix(trans: Seq<Seq<(Symbol, usize)>>, row: Seq<(Symbol, usize)>, e: (Symbol, usize), j: int, start: int)
    requires
        0 <= start <= trans.len(),
        0 <= j <= row.len(),
    ensures
        dfs_scan(trans, row.push(e), j, start) == dfs_scan(trans, row, j, start),
    decreases j,
{
    if j > 0 {
        lemma_dfs_scan_prefix(trans, row, e, j - 1, start);
        assert(row.push(e)[j - 1] == row[j - 1]);
    }
}

spec fn sets_view<I>(v: Seq<Vec<I>>) -> Seq<Set<I>> {
    v.map_values(|x: Vec<I>| x@.to_set())
}

spec fn trans_view(v: Seq<Vec<(Symbol, usize)>>) -> Seq<Seq<(Symbol, usize)>> {
    v.map_values(|x: Vec<(Symbol, usize)>| x@)
}

spec fn extends_sets<I>(a: Seq<Set<I>>, b: Seq<Set<I>>) -> bool {
    b.len() >= a.len() && forall|i: int| 0 <= i < a.len() ==> b[i] == a[i]
}

/// Whether two vectors of items hold the same items.
fn same_items<I: LRItem>(a: &Vec<I>, b: &Vec<I>) -> (r: bool)
    ensures
        r == (a@.to_set() == b@.to_set()),
{
    let mut i: usize = 0;
    while i < a.len()
        invariant
            i <= a@.len(),
            forall|j: int| 0 <= j < i ==> b@.contains(#[trigger] a@[j]),
        decreases a.len() - i,
    {
        if !contains_item(b, &a[i]) {
            assert(a@.to_set().contains(a@[i as int]));
            return false;
        }
        i = i + 1;
    }
    let mut i: usize = 0;
    while i < b.len()
        invariant
            i <= b@.len(),
            forall|j: int| 0 <= j < a@.len() ==> b@.contains(#[trigger] a@[j]),
            forall|j: int| 0 <= j < i ==> a@.contains(#[trigger] b@[j]),
        decreases b.len() - i,
    {
        if !contains_item(a, &b[i]) {
            assert(b@.to_set().contains(b@[i as int]));
            return false;
        }
        i = i + 1;
    }
    assert(a@.to_set() =~= b@.to_set());
    true
}

impl<'a, I: LRItem> Builder<'a, I> {
    /// The items of `set` that have `sym` after their bullet, with the
    /// bullet moved past it.
    fn moved_items(&self, set: &Vec<I>, sym: Symbol) -> (r: Vec<I>)
        requires
            all_valid(self.spec_rules(), set@),
            rules_fit(self.spec_rules()),
        ensures
            r@.to_set() == moved(self.spec_rules(), set@.to_set(), sym),
            r@.no_duplicates(),
            all_valid(self.spec_rules(), r@),
    {
        let ghost rv = self.spec_rules();
        let mut r: Vec<I> = Vec::new();
        let mut i: usize = 0;
        while i < set.len()
            invariant
                rv == self.spec_rules(),
                rules_fit(rv),
                all_valid(rv, set@),
                i <= set@.len(),
                all_valid(rv, r@),
                r@.no_duplicates(),
                r@.to_set() == Set::new(
                    |y: I| exists|j: int| 0 <= j < i && next_sym(rv, #[trigger] set@[j]) == Some(sym) && y == set@[j].spec_move_bullet(),
                ),
            decreases set.len() - i,
        {
            let ghost before = r@;
            let x = &set[i];
            assert(valid_item(rv, set@[i as int]));
            if self.next_token(x) == Some(sym) {
                proof {
                    x.lemma_move_bullet();
                }
                let y = x.move_bullet();
                if !contains_item(&r, &y) {
                    r.push(y);
                    assert forall|a: int, b: int| 0 <= a < r@.len() && 0 <= b < r@.len() && a != b implies r@[a] != r@[b] by {
                        if a == before.len() {
                            assert(r@[b] == before[b]);
                        } else if b == before.len() {
                            assert(r@[a] == before[a]);
                        }
                    }
                }
            }
            assert(r@.to_set() =~= Set::new(
                |y: I| exists|j: int| 0 <= j < i + 1 && next_sym(rv, #[trigger] set@[j]) == Some(sym) && y == set@[j].spec_move_bullet(),
            )) by {
                assert forall|y: I| r@.to_set().contains(y) implies exists|j: int| 0 <= j < i + 1 && next_sym(rv, #[trigger] set@[j]) == Some(sym) && y == set@[j].spec_move_bullet() by {
                    if before.contains(y) {
                        assert(before.to_set().contains(y));
                    } else {
                        assert(next_sym(rv, set@[i as int]) == Some(sym) && y == set@[i as int].spec_move_bullet());
                    }
                }
                assert forall|y: I| (exists|j: int| 0 <= j < i + 1 && next_sym(rv, #[trigger] set@[j]) == Some(sym) && y == set@[j].spec_move_bullet()) implies r@.to_set().contains(y) by {
                    let j = choose|j: int| 0 <= j < i + 1 && next_sym(rv, #[trigger] set@[j]) == Some(sym) && y == set@[j].spec_move_bullet();
                    if j < i {
                        assert(before.to_set().contains(y));
                    }
                }
            }
            i = i + 1;
        }
        assert(r@.to_set() =~= moved(rv, set@.to_set(), sym)) by {
            assert forall|y: I| r@.to_set().contains(y) implies moved(rv, set@.to_set(), sym).contains(y) by {
                let j = choose|j: int| 0 <= j < set@.len() && next_sym(rv, #[trigger] set@[j]) == Some(sym) && y == set@[j].spec_move_bullet();
                assert(set@.to_set().contains(set@[j]));
            }
            assert forall|y: I| moved(rv, set@.to_set(), sym).contains(y) implies r@.to_set().contains(y) by {
                let x = choose|x: I| #[trigger] set@.to_set().contains(x) && next_sym(rv, x) == Some(sym) && y == x.spec_move_bullet();
                let j = choose|j: int| 0 <= j < set@.len() && set@[j] == x;
                assert(next_sym(rv, set@[j]) == Some(sym));
            }
        }
        r
    }

    /// The index of a state equal to `t`, which is added when there is none.
    fn find_or_add(&mut self, t: Vec<I>) -> (r: usize)
        requires
            distinct_item_sets(sets_view(old(self).sets@)),
        ensures
            final(self).rules == old(self).rules,
            final(self).term_count == old(self).term_count,
            final(self).nterm_count == old(self).nterm_count,
            final(self).trans == old(self).trans,
            distinct_item_sets(sets_view(final(self).sets@)),
            extends_sets(sets_view(old(self).sets@), sets_view(final(self).sets@)),
            final(self).sets@.len() <= usize::MAX,
            forall|i: int| 0 <= i < old(self).sets@.len() ==> final(self).sets@[i] == old(self).sets@[i],
            final(self).sets@.len() == old(self).sets@.len() || (final(self).sets@.len() == old(self).sets@.len() + 1
                && final(self).sets@.last() == t),
            r < final(self).sets@.len(),
            final(self).sets@[r as int]@.to_set() == t@.to_set(),
            (final(self).sets@.len() == old(self).sets@.len() && r < old(self).sets@.len()) || (final(self).sets@.len()
                == old(self).sets@.len() + 1 && r == old(self).sets@.len()),
    {
        let mut i: usize = 0;
        while i < self.sets.len()
            invariant
                i <= self.sets@.len(),
                self.sets@ == old(self).sets@,
                self.rules == old(self).rules,
                self.term_count == old(self).term_count,
                self.nterm_count == old(self).nterm_count,
                self.trans == old(self).trans,
                distinct_item_sets(sets_view(old(self).sets@)),
                forall|j: int| 0 <= j < i ==> self.sets@[j]@.to_set() != t@.to_set(),
            decreases self.sets.len() - i,
        {
            if same_items(&self.sets[i], &t) {
                return i;
            }
            i = i + 1;
        }
        let n = self.sets.len();
        self.sets.push(t);
        let _len = self.sets.len();
        assert(distinct_item_sets(sets_view(self.sets@))) by {
            assert forall|a: int, b: int|
                0 <= a < sets_view(self.sets@).len() && 0 <= b < sets_view(self.sets@).len() && a != b implies sets_view(
                self.sets@,
            )[a] != sets_view(self.sets@)[b] by {
                if a < n && b < n {
                    assert(sets_view(old(self).sets@)[a] != sets_view(old(self).sets@)[b]);
                }
            }
        }
        n
    }
}


spec fn sets_ok<I: LRItem>(rules: Seq<(usize, Seq<Symbol>)>, sets: Seq<Vec<I>>) -> bool {
    forall|i: int| 0 <= i < sets.len() ==> all_valid(rules, (#[trigger] sets[i])@) && sets[i]@.no_duplicates()
}

spec fn processed(s: Symbol, t: usize, n: usize) -> bool {
    match s {
        Symbol::T(j) => j < t,
        Symbol::N(j) => j < n,
    }
}

impl<'a, I: LRItem> Builder<'a, I> {
    /// The state reached from state `k` by `sym`, which is added when it is
    /// new; `None` when it is empty.
    fn goto_state(&mut self, k: usize, sym: Symbol) -> (r: Option<usize>)
        requires
            k < old(self).sets@.len(),
            sets_ok(old(self).spec_rules(), old(self).sets@),
            distinct_item_sets(sets_view(old(self).sets@)),
            rules_fit(old(self).spec_rules()),
        ensures
            final(self).rules == old(self).rules,
            final(self).term_count == old(self).term_count,
            final(self).nterm_count == old(self).nterm_count,
            final(self).trans == old(self).trans,
            extends_sets(sets_view(old(self).sets@), sets_view(final(self).sets@)),
            final(self).sets@.len() <= usize::MAX,
            final(self).sets@.len() <= old(self).sets@.len() + 1,
            sets_ok(final(self).spec_rules(), final(self).sets@),
            distinct_item_sets(sets_view(final(self).sets@)),
            match r {
                Some(id) => (final(self).sets@.len() == old(self).sets@.len() && id < old(self).sets@.len()) || (
                final(self).sets@.len() == old(self).sets@.len() + 1 && id == old(self).sets@.len()),
                None => final(self).sets@.len() == old(self).sets@.len(),
            },
            match r {
                Some(id) => id < final(self).sets@.len() && sets_view(final(self).sets@)[id as int] == goto_set(
                    old(self).spec_rules(),
                    sets_view(old(self).sets@)[k as int],
                    sym,
                ) && goto_set(old(self).spec_rules(), sets_view(old(self).sets@)[k as int], sym) != Set::<I>::empty(),
                None => goto_set(old(self).spec_rules(), sets_view(old(self).sets@)[k as int], sym) == Set::<I>::empty(),
            },
    {
        let ghost rv = self.spec_rules();
        let _n = self.sets.len();
        assert(sets_view(self.sets@)[k as int] == self.sets@[k as int]@.to_set());
        assert(all_valid(rv, self.sets@[k as int]@));
        let m = self.moved_items(&self.sets[k], sym);
        let state = self.closure(m);
        if state.len() != 0 {
            assert(state@.to_set().contains(state@[0]));
            let ghost before = self.sets@;
            let ghost sv = state@;
            let id = self.find_or_add(state);
            assert(sets_ok(rv, self.sets@)) by {
                assert forall|i: int| 0 <= i < self.sets@.len() implies all_valid(rv, (#[trigger] self.sets@[i])@)
                    && self.sets@[i]@.no_duplicates() by {
                    if i < before.len() {
                        assert(self.sets@[i] == before[i]);
                    } else {
                        assert(self.sets@[i]@ == sv);
                    }
                }
            }
            Some(id)
        } else {
            assert(state@.to_set() =~= Set::<I>::empty());
            None
        }
    }

    /// Adds the transition of state `k` on `sym`, when there is one.
    fn add_transition(&mut self, k: usize, sym: Symbol, row: &mut Vec<(Symbol, usize)>, Ghost(s0): Ghost<Seq<Set<I>>>, Ghost(t): Ghost<usize>, Ghost(n): Ghost<usize>)
        requires
            k < s0.len(),
            sym_ok(old(self).term_count, old(self).nterm_count, sym),
            !processed(sym, t, n),
            processed(sym, if sym is T { (t + 1) as usize } else { t }, if sym is N { (n + 1) as usize } else { n }),
            sym is T ==> n == 0,
            sym is N ==> t == old(self).term_count,
            row_inv(old(self).spec_rules(), old(self).term_count, old(self).nterm_count, s0, old(self).sets@, k as int, old(row)@, t, n),
        ensures
            final(row)@ == old(row)@ ==> final(self).sets@.len() == old(self).sets@.len(),
            final(row)@ != old(row)@ ==> final(row)@.len() == old(row)@.len() + 1 && final(row)@.drop_last() == old(row)@
                && final(row)@.last().0 == sym && ((final(self).sets@.len() == old(self).sets@.len() && final(row)@.last().1
                < old(self).sets@.len()) || (final(self).sets@.len() == old(self).sets@.len() + 1 && final(row)@.last().1
                == old(self).sets@.len())),
            final(self).rules == old(self).rules,
            final(self).term_count == old(self).term_count,
            final(self).nterm_count == old(self).nterm_count,
            final(self).trans == old(self).trans,
            old(self).sets@.len() <= final(self).sets@.len() <= old(self).sets@.len() + 1,
            extends_sets(sets_view(old(self).sets@), sets_view(final(self).sets@)),
            row_inv(
                final(self).spec_rules(),
                final(self).term_count,
                final(self).nterm_count,
                s0,
                final(self).sets@,
                k as int,
                final(row)@,
                if sym is T { (t + 1) as usize } else { t },
                if sym is N { (n + 1) as usize } else { n },
            ),
    {
        let ghost rv = self.spec_rules();
        let ghost tc = self.term_count;
        let ghost nc = self.nterm_count;
        let ghost t1: usize = if sym is T { (t + 1) as usize } else { t };
        let ghost n1: usize = if sym is N { (n + 1) as usize } else { n };
        let ghost before = self.sets@;
        let ghost row0 = row@;
        assert(sets_view(self.sets@)[k as int] == s0[k as int]);
        let r = self.goto_state(k, sym);
        match r {
            Some(id) => {
                row.push((sym, id));
            },
            None => {},
        }
        proof {
            assert forall|i: int, j: int| 0 <= i < j < row@.len() implies row@[i].0 != row@[j].0 by {
                if j == row0.len() {
                    assert(processed(row0[i].0, t, n));
                }
            }
            assert forall|i: int| 0 <= i < row@.len() implies processed((#[trigger] row@[i]).0, t1, n1) && sym_ok(tc, nc, row@[i].0)
                && row@[i].1 < self.sets@.len() && sets_view(self.sets@)[row@[i].1 as int] == goto_set(rv, s0[k as int], row@[i].0) by {
                if i < row0.len() {
                    assert(row@[i] == row0[i]);
                    assert(processed(row0[i].0, t, n));
                    assert(sets_view(self.sets@)[row0[i].1 as int] == sets_view(before)[row0[i].1 as int]);
                }
            }
            assert forall|s: Symbol| sym_ok(tc, nc, s) && processed(s, t1, n1) implies (goto_set(rv, s0[k as int], s) != Set::<I>::empty()
                <==> has_sym(row@, s)) by {
                if s == sym {
                    if r is Some {
                        assert(row@[row0.len() as int].0 == sym);
                    } else {
                        if has_sym(row@, s) {
                            let i = choose|i: int| 0 <= i < row@.len() && #[trigger] row@[i].0 == s;
                            assert(row@[i] == row0[i]);
                            assert(processed(row0[i].0, t, n));
                        }
                    }
                } else {
                    assert(processed(s, t, n));
                    if has_sym(row0, s) {
                        let i = choose|i: int| 0 <= i < row0.len() && #[trigger] row0[i].0 == s;
                        assert(row@[i] == row0[i]);
                    }
                    if has_sym(row@, s) {
                        let i = choose|i: int| 0 <= i < row@.len() && #[trigger] row@[i].0 == s;
                        if i < row0.len() {
                            assert(row@[i] == row0[i]);
                        }
                    }
                }
            }
        }
    }

}

spec fn row_inv<I: LRItem>(
    rv: Seq<(usize, Seq<Symbol>)>,
    tc: usize,
    nc: usize,
    s0: Seq<Set<I>>,
    sets: Seq<Vec<I>>,
    k: int,
    row: Seq<(Symbol, usize)>,
    t: usize,
    n: usize,
) -> bool {
    &&& 0 <= k < s0.len()
    &&& extends_sets(s0, sets_view(sets))
    &&& sets.len() <= usize::MAX
    &&& sets_ok(rv, sets)
    &&& distinct_item_sets(sets_view(sets))
    &&& rules_fit(rv)
    &&& forall|i: int, j: int| 0 <= i < j < row.len() ==> row[i].0 != row[j].0
    &&& forall|i: int|
        0 <= i < row.len() ==> processed((#[trigger] row[i]).0, t, n) && sym_ok(tc, nc, row[i].0) && row[i].1
            < sets.len() && sets_view(sets)[row[i].1 as int] == goto_set(rv, s0[k], row[i].0)
    &&& forall|s: Symbol|
        sym_ok(tc, nc, s) && processed(s, t, n) ==> (goto_set(rv, s0[k], s) != Set::<I>::empty() <==> has_sym(row, s))
}

proof fn lemma_row_transfer<I: LRItem>(
    rules: Seq<(usize, Seq<Symbol>)>,
    tc: usize,
    nc: usize,
    s0: Seq<Set<I>>,
    s1: Seq<Set<I>>,
    k: int,
    row: Seq<(Symbol, usize)>,
)
    requires
        0 <= k < s0.len(),
        extends_sets(s0, s1),
        forall|i: int, j: int| 0 <= i < j < row.len() ==> row[i].0 != row[j].0,
        forall|i: int|
            0 <= i < row.len() ==> sym_ok(tc, nc, (#[trigger] row[i]).0) && row[i].1 < s1.len() && s1[row[i].1 as int]
                == goto_set(rules, s0[k], row[i].0),
        forall|s: Symbol| sym_ok(tc, nc, s) ==> (goto_set(rules, s0[k], s) != Set::<I>::empty() <==> has_sym(row, s)),
    ensures
        lr_row(rules, tc, nc, s1, k, row),
{
    assert(s1[k] == s0[k]);
}


/// The state that the row reaches on `s`, if any.
pub open spec fn sym_target(row: Seq<(Symbol, usize)>, s: Symbol) -> Option<usize> {
    if has_sym(row, s) {
        Some(row[choose|i: int| 0 <= i < row.len() && #[trigger] row[i].0 == s].1)
    } else {
        None
    }
}

/// The bullet of the item is at the end of its production.
pub open spec fn complete<I: LRItem>(rules: Seq<(usize, Seq<Symbol>)>, x: I) -> bool {
    x.spec_prod_and_pos().1 == rules[x.spec_prod_and_pos().0 as int].1.len()
}

/// A state holding `x` reduces by `x`'s production on terminal `k`.
pub open spec fn reduces_on<I: LRItem>(rules: Seq<(usize, Seq<Symbol>)>, x: I, k: usize) -> bool {
    complete(rules, x) && x.spec_reduce_on(k)
}

/// On terminal `k`, the state `set` (with transitions `row`) can both
/// shift and reduce, or reduce by two different items.
pub open spec fn conflict<I: LRItem>(rules: Seq<(usize, Seq<Symbol>)>, set: Set<I>, row: Seq<(Symbol, usize)>, k: usize) -> bool {
    ||| has_sym(row, Symbol::T(k)) && exists|x: I| #[trigger] set.contains(x) && reduces_on(rules, x, k)
    ||| exists|x: I, y: I| #[trigger] set.contains(x) && #[trigger] set.contains(y) && x != y && reduces_on(rules, x, k) && reduces_on(rules, y, k)
}

/// `a` is the action of the state on terminal `k`: shift along the
/// transition on `k` if there is one, else reduce by an item that reduces
/// on `k`, else nothing.
pub open spec fn action_ok<I: LRItem>(
    rules: Seq<(usize, Seq<Symbol>)>,
    set: Set<I>,
    row: Seq<(Symbol, usize)>,
    k: usize,
    a: Option<Action>,
) -> bool {
    match sym_target(row, Symbol::T(k)) {
        Some(t) => a == Some(Action::Shift(t)),
        None => match a {
            Some(Action::Reduce(p)) => exists|x: I| #[trigger] set.contains(x) && reduces_on(rules, x, k) && x.spec_prod_and_pos().0 == p,
            Some(Action::Shift(_)) => false,
            None => forall|x: I| #[trigger] set.contains(x) ==> !reduces_on(rules, x, k),
        },
    }
}

/// `g` is where the state goes after non-terminal `n`.
pub open spec fn goto_ok(row: Seq<(Symbol, usize)>, n: usize, g: Goto) -> bool {
    match sym_target(row, Symbol::N(n)) {
        Some(t) => g == Goto::Target(t),
        None => g == Goto::NoTarget,
    }
}

/// The table holds, for each state, its action on each terminal and its
/// goto on each non-terminal.
pub open spec fn table_of<I: LRItem>(
    rules: Seq<(usize, Seq<Symbol>)>,
    tc: usize,
    nc: usize,
    sets: Seq<Set<I>>,
    trans: Seq<Seq<(Symbol, usize)>>,
    table: Seq<(Seq<Option<Action>>, Seq<Goto>)>,
) -> bool {
    &&& table.len() == sets.len()
    &&& forall|q: int|
        0 <= q < sets.len() ==> {
            &&& (#[trigger] table[q]).0.len() == tc
            &&& table[q].1.len() == nc
            &&& forall|k: usize| k < tc ==> action_ok(rules, sets[q], trans[q], k, #[trigger] table[q].0[k as int])
            &&& forall|n: usize| n < nc ==> goto_ok(trans[q], n, #[trigger] table[q].1[n as int])
        }
}

proof fn lemma_sym_target<I>(row: Seq<(Symbol, usize)>, i: int)
    requires
        0 <= i < row.len(),
        forall|a: int, b: int| 0 <= a < b < row.len() ==> row[a].0 != row[b].0,
    ensures
        sym_target(row, row[i].0) == Some(row[i].1),
{
    assert(has_sym(row, row[i].0));
    let j = choose|j: int| 0 <= j < row.len() && #[trigger] row[j].0 == row[i].0;
    if j != i {
        if j < i {
            assert(row[j].0 != row[i].0);
        } else {
            assert(row[i].0 != row[j].0);
        }
    }
}

impl<'a, I: LRItem> Builder<'a, I> {
    /// No state has been built yet.
    pub closed spec fn fresh(&self) -> bool {
        self.sets@.len() == 0 && self.trans@.len() == 0
    }

    /// Builds the states and their transitions: the state of the start
    /// rule, then, depth first, each state as soon as a transition finds
    /// it.
    fn build_states(&mut self)
        requires
            old(self).fresh(),
            old(self).spec_rules().len() > 0,
            rules_fit(old(self).spec_rules()),
        ensures
            final(self).rules == old(self).rules,
            final(self).term_count == old(self).term_count,
            final(self).nterm_count == old(self).nterm_count,
            sets_ok(final(self).spec_rules(), final(self).sets@),
            lr_automaton(
                final(self).spec_rules(),
                final(self).term_count,
                final(self).nterm_count,
                sets_view(final(self).sets@),
                trans_view(final(self).trans@),
            ),
    {
        let ghost rv = self.spec_rules();
        let mut root: Vec<I> = Vec::new();
        root.push(I::root());
        proof {
            I::lemma_root();
            assert(root@.to_set() =~= set![I::spec_root()]);
        }
        let c = self.closure(root);
        self.sets.push(c);
        self.trans.push(Vec::new());
        proof {
            assert(sets_ok(rv, self.sets@)) by {
                assert forall|i: int| 0 <= i < self.sets@.len() implies all_valid(rv, (#[trigger] self.sets@[i])@)
                    && self.sets@[i]@.no_duplicates() by {
                    assert(self.sets@[i] == self.sets@[0]);
                }
            }
        }
        let ghost s1 = sets_view(self.sets@);
        self.explore(0);
        proof {
            assert(sets_view(self.sets@)[0] == s1[0]);
            assert forall|q: int| 0 <= q < sets_view(self.sets@).len() implies lr_row(
                rv,
                self.term_count,
                self.nterm_count,
                sets_view(self.sets@),
                q,
                #[trigger] trans_view(self.trans@)[q],
            ) by {}
        }
    }

    /// Builds the transitions of state `k`, the newest state, on each
    /// terminal and then on each non-terminal; each state that a transition
    /// finds is explored in turn before the next transition.
    fn explore(&mut self, k: usize)
        requires
            k + 1 == old(self).sets@.len(),
            old(self).trans@.len() == old(self).sets@.len(),
            old(self).sets@.len() <= usize::MAX,
            sets_ok(old(self).spec_rules(), old(self).sets@),
            distinct_item_sets(sets_view(old(self).sets@)),
            rules_fit(old(self).spec_rules()),
        ensures
            final(self).rules == old(self).rules,
            final(self).term_count == old(self).term_count,
            final(self).nterm_count == old(self).nterm_count,
            extends_sets(sets_view(old(self).sets@), sets_view(final(self).sets@)),
            final(self).sets@.len() <= usize::MAX,
            sets_ok(final(self).spec_rules(), final(self).sets@),
            distinct_item_sets(sets_view(final(self).sets@)),
            final(self).trans@.len() == final(self).sets@.len(),
            forall|q: int| 0 <= q < k ==> #[trigger] final(self).trans@[q] == old(self).trans@[q],
            forall|q: int|
                k <= q < final(self).sets@.len() ==> lr_row(
                    final(self).spec_rules(),
                    final(self).term_count,
                    final(self).nterm_count,
                    sets_view(final(self).sets@),
                    q,
                    #[trigger] trans_view(final(self).trans@)[q],
                ),
            forall|q: int| k <= q < final(self).trans@.len() ==> row_ranked(final(self).term_count, #[trigger] trans_view(final(self).trans@)[q]),
            dfs_scan(trans_view(final(self).trans@), trans_view(final(self).trans@)[k as int], final(self).trans@[k as int]@.len() as int, k + 1)
                == Some(final(self).sets@.len() as int),
        decreases usize::MAX - old(self).sets@.len(),
    {
        let ghost rv = self.spec_rules();
        let ghost tc = self.term_count;
        let ghost nc = self.nterm_count;
        let ghost s0 = sets_view(self.sets@);
        let ghost t0 = self.trans@;
        let mut row: Vec<(Symbol, usize)> = Vec::new();
        let mut t: usize = 0;
        while t < self.term_count
            invariant
                rv == self.spec_rules(),
                tc == self.term_count,
                nc == self.nterm_count,
                self.rules == old(self).rules,
                self.term_count == old(self).term_count,
                self.nterm_count == old(self).nterm_count,
                s0 == sets_view(old(self).sets@),
                t0 == old(self).trans@,
                k < s0.len(),
                t <= tc,
                row_inv(rv, tc, nc, s0, self.sets@, k as int, row@, t, 0),
                self.trans@.len() == self.sets@.len(),
                forall|q: int| 0 <= q < k ==> #[trigger] self.trans@[q] == t0[q],
                forall|q: int|
                    k < q < self.sets@.len() ==> lr_row(rv, tc, nc, sets_view(self.sets@), q, #[trigger] trans_view(self.trans@)[q]),
                forall|q: int| k < q < self.trans@.len() ==> row_ranked(tc, #[trigger] trans_view(self.trans@)[q]),
                row_ranked(tc, row@),
                dfs_scan(trans_view(self.trans@), row@, row@.len() as int, k + 1) == Some(self.sets@.len() as int),
            decreases tc - t,
        {
            self.step(k, Symbol::T(t), &mut row, Ghost(s0), Ghost(t0), Ghost(t), Ghost(0usize));
            t = t + 1;
        }
        let mut n: usize = 0;
        while n < self.nterm_count
            invariant
                rv == self.spec_rules(),
                tc == self.term_count,
                nc == self.nterm_count,
                self.rules == old(self).rules,
                self.term_count == old(self).term_count,
                self.nterm_count == old(self).nterm_count,
                s0 == sets_view(old(self).sets@),
                t0 == old(self).trans@,
                k < s0.len(),
                n <= nc,
                row_inv(rv, tc, nc, s0, self.sets@, k as int, row@, tc, n),
                self.trans@.len() == self.sets@.len(),
                forall|q: int| 0 <= q < k ==> #[trigger] self.trans@[q] == t0[q],
                forall|q: int|
                    k < q < self.sets@.len() ==> lr_row(rv, tc, nc, sets_view(self.sets@), q, #[trigger] trans_view(self.trans@)[q]),
                forall|q: int| k < q < self.trans@.len() ==> row_ranked(tc, #[trigger] trans_view(self.trans@)[q]),
                row_ranked(tc, row@),
                dfs_scan(trans_view(self.trans@), row@, row@.len() as int, k + 1) == Some(self.sets@.len() as int),
            decreases nc - n,
        {
            self.step(k, Symbol::N(n), &mut row, Ghost(s0), Ghost(t0), Ghost(tc), Ghost(n));
            n = n + 1;
        }
        proof {
            lemma_row_transfer(rv, tc, nc, s0, sets_view(self.sets@), k as int, row@);
        }
        let ghost tr = self.trans@;
        let ghost rowv = row@;
        self.trans.set(k, row);
        proof {
            assert forall|q: int| k + 1 <= q < self.sets@.len() implies trans_view(self.trans@)[q] == trans_view(tr)[q] by {
                assert(self.trans@[q] == tr[q]);
            }
            lemma_dfs_scan_frame(trans_view(tr), trans_view(self.trans@), rowv, rowv.len() as int, k + 1, self.sets@.len() as int);
            assert(trans_view(self.trans@)[k as int] == rowv);
            assert forall|q: int| k <= q < self.trans@.len() implies row_ranked(tc, #[trigger] trans_view(self.trans@)[q]) by {
                if q > k {
                    assert(self.trans@[q] == tr[q]);
                    assert(trans_view(self.trans@)[q] == trans_view(tr)[q]);
                } else {
                    assert(trans_view(self.trans@)[q] == rowv);
                }
            }
            assert forall|q: int| k <= q < self.sets@.len() implies lr_row(
                rv,
                tc,
                nc,
                sets_view(self.sets@),
                q,
                #[trigger] trans_view(self.trans@)[q],
            ) by {
                if q > k {
                    assert(self.trans@[q] == tr[q]);
                    assert(trans_view(self.trans@)[q] == trans_view(tr)[q]);
                }
            }
            assert forall|q: int| 0 <= q < k implies #[trigger] self.trans@[q] == t0[q] by {
                assert(self.trans@[q] == tr[q]);
            }
        }
    }

    /// One transition of state `k`, on `sym`; a state it finds is explored
    /// at once.
    fn step(
        &mut self,
        k: usize,
        sym: Symbol,
        row: &mut Vec<(Symbol, usize)>,
        Ghost(s0): Ghost<Seq<Set<I>>>,
        Ghost(t0): Ghost<Seq<Vec<(Symbol, usize)>>>,
        Ghost(t): Ghost<usize>,
        Ghost(n): Ghost<usize>,
    )
        requires
            k < s0.len(),
            s0.len() <= old(self).sets@.len(),
            sym_ok(old(self).term_count, old(self).nterm_count, sym),
            !processed(sym, t, n),
            processed(sym, if sym is T { (t + 1) as usize } else { t }, if sym is N { (n + 1) as usize } else { n }),
            sym is T ==> n == 0,
            sym is N ==> t == old(self).term_count,
            row_inv(old(self).spec_rules(), old(self).term_count, old(self).nterm_count, s0, old(self).sets@, k as int, old(row)@, t, n),
            old(self).trans@.len() == old(self).sets@.len(),
            forall|q: int| 0 <= q < k ==> #[trigger] old(self).trans@[q] == t0[q],
            forall|q: int|
                k < q < old(self).sets@.len() ==> lr_row(
                    old(self).spec_rules(),
                    old(self).term_count,
                    old(self).nterm_count,
                    sets_view(old(self).sets@),
                    q,
                    #[trigger] trans_view(old(self).trans@)[q],
                ),
            forall|q: int| k < q < old(self).trans@.len() ==> row_ranked(old(self).term_count, #[trigger] trans_view(old(self).trans@)[q]),
            row_ranked(old(self).term_count, old(row)@),
            dfs_scan(trans_view(old(self).trans@), old(row)@, old(row)@.len() as int, k + 1) == Some(old(self).sets@.len() as int),
        ensures
            final(self).rules == old(self).rules,
            final(self).term_count == old(self).term_count,
            final(self).nterm_count == old(self).nterm_count,
            final(self).sets@.len() >= old(self).sets@.len(),
            row_inv(
                final(self).spec_rules(),
                final(self).term_count,
                final(self).nterm_count,
                s0,
                final(self).sets@,
                k as int,
                final(row)@,
                if sym is T { (t + 1) as usize } else { t },
                if sym is N { (n + 1) as usize } else { n },
            ),
            final(self).trans@.len() == final(self).sets@.len(),
            forall|q: int| 0 <= q < k ==> #[trigger] final(self).trans@[q] == t0[q],
            forall|q: int|
                k < q < final(self).sets@.len() ==> lr_row(
                    final(self).spec_rules(),
                    final(self).term_count,
                    final(self).nterm_count,
                    sets_view(final(self).sets@),
                    q,
                    #[trigger] trans_view(final(self).trans@)[q],
                ),
            forall|q: int| k < q < final(self).trans@.len() ==> row_ranked(final(self).term_count, #[trigger] trans_view(final(self).trans@)[q]),
            row_ranked(final(self).term_count, final(row)@),
            dfs_scan(trans_view(final(self).trans@), final(row)@, final(row)@.len() as int, k + 1) == Some(final(self).sets@.len() as int),
        decreases usize::MAX - s0.len(), usize::MAX - old(self).sets@.len(),
    {
        let ghost rv = self.spec_rules();
        let ghost tc = self.term_count;
        let ghost nc = self.nterm_count;
        let before = self.sets.len();
        let ghost sets0 = sets_view(self.sets@);
        let ghost tr0 = self.trans@;
        let ghost row0 = row@;
        self.add_transition(k, sym, row, Ghost(s0), Ghost(t), Ghost(n));
        proof {
            lemma_lr_rows_range_extend(rv, tc, nc, sets0, sets_view(self.sets@), trans_view(self.trans@), k as int + 1, before as int);
            if row@ != row0 {
                assert(row@ == row0.push(row@.last()));
                assert forall|i: int, j: int| 0 <= i < j < row@.len() implies sym_rank(tc, #[trigger] row@[i].0) < sym_rank(tc, #[trigger] row@[j].0) by {
                    if j == row0.len() {
                        assert(row@[i] == row0[i]);
                        assert(processed(row0[i].0, t, n));
                    } else {
                        assert(row@[i] == row0[i]);
                        assert(row@[j] == row0[j]);
                    }
                }
                lemma_dfs_scan_prefix(trans_view(tr0), row0, row@.last(), row0.len() as int, k + 1);
                if self.sets@.len() == before {
                    assert(dfs_scan(trans_view(self.trans@), row@, row@.len() as int, k + 1) == Some(before as int));
                }
            }
        }
        if self.sets.len() > before {
            self.trans.push(Vec::new());
            proof {
                assert forall|q: int| 0 <= q < k implies #[trigger] self.trans@[q] == t0[q] by {
                    assert(self.trans@[q] == tr0[q]);
                }
                assert forall|q: int| k < q < before implies lr_row(rv, tc, nc, sets_view(self.sets@), q, #[trigger] trans_view(self.trans@)[q]) by {
                    assert(self.trans@[q] == tr0[q]);
                    assert(trans_view(self.trans@)[q] == trans_view(tr0)[q]);
                }
            }
            let ghost sets1 = sets_view(self.sets@);
            let ghost vsets1 = self.sets@;
            let ghost tr1 = self.trans@;
            let ghost row1 = row@;
            self.explore(before);
            proof {
                assert forall|q: int| k + 1 <= q < before implies trans_view(self.trans@)[q] == trans_view(tr0)[q] by {
                    assert(self.trans@[q] == tr1[q]);
                    assert(tr1[q] == tr0[q]);
                }
                lemma_dfs_scan_frame(trans_view(tr0), trans_view(self.trans@), row0, row0.len() as int, k + 1, before as int);
                lemma_dfs_scan_prefix(trans_view(self.trans@), row0, row1.last(), row0.len() as int, k + 1);
                assert(row1 == row0.push(row1.last()));
                assert(dfs_scan(trans_view(self.trans@), row1, row1.len() as int, k + 1) == Some(self.sets@.len() as int));
                assert forall|q: int| k < q < self.trans@.len() implies row_ranked(tc, #[trigger] trans_view(self.trans@)[q]) by {
                    if q < before {
                        assert(self.trans@[q] == tr1[q]);
                        assert(tr1[q] == tr0[q]);
                        assert(trans_view(self.trans@)[q] == trans_view(tr0)[q]);
                    }
                }
                lemma_lr_rows_range_extend(rv, tc, nc, sets1, sets_view(self.sets@), trans_view(tr1), k as int + 1, before as int);
                assert forall|q: int| k < q < self.sets@.len() implies lr_row(rv, tc, nc, sets_view(self.sets@), q, #[trigger] trans_view(self.trans@)[q]) by {
                    if q < before {
                        assert(self.trans@[q] == tr1[q]);
                        assert(trans_view(self.trans@)[q] == trans_view(tr1)[q]);
                    }
                }
                assert forall|q: int| 0 <= q < k implies #[trigger] self.trans@[q] == t0[q] by {
                    assert(self.trans@[q] == tr1[q]);
                }
                lemma_row_inv_extend(rv, tc, nc, s0, vsets1, self.sets@, k as int, row1, if sym is T { (t + 1) as usize } else { t }, if sym is N { (n + 1) as usize } else { n });
            }
        }
    }
}

/// Rows that hold for some states hold once more states are added.
proof fn lemma_lr_rows_range_extend<I: LRItem>(
    rules: Seq<(usize, Seq<Symbol>)>,
    tc: usize,
    nc: usize,
    a: Seq<Set<I>>,
    b: Seq<Set<I>>,
    trans: Seq<Seq<(Symbol, usize)>>,
    lo: int,
    hi: int,
)
    requires
        extends_sets(a, b),
        0 <= lo,
        hi <= a.len(),
        forall|q: int| lo <= q < hi ==> lr_row(rules, tc, nc, a, q, #[trigger] trans[q]),
    ensures
        forall|q: int| lo <= q < hi ==> lr_row(rules, tc, nc, b, q, #[trigger] trans[q]),
{
    assert forall|q: int| lo <= q < hi implies lr_row(rules, tc, nc, b, q, #[trigger] trans[q]) by {
        assert(lr_row(rules, tc, nc, a, q, trans[q]));
        assert(b[q] == a[q]);
        let row = trans[q];
        assert forall|i: int| 0 <= i < row.len() implies sym_ok(tc, nc, (#[trigger] row[i]).0) && row[i].1 < b.len()
            && b[row[i].1 as int] == goto_set(rules, b[q], row[i].0) by {
            assert(a[row[i].1 as int] == b[row[i].1 as int]);
        }
    }
}

/// A row in progress stays one once more states are added.
proof fn lemma_row_inv_extend<I: LRItem>(
    rv: Seq<(usize, Seq<Symbol>)>,
    tc: usize,
    nc: usize,
    s0: Seq<Set<I>>,
    a: Seq<Vec<I>>,
    b: Seq<Vec<I>>,
    k: int,
    row: Seq<(Symbol, usize)>,
    t: usize,
    n: usize,
)
    requires
        row_inv(rv, tc, nc, s0, a, k, row, t, n),
        extends_sets(sets_view(a), sets_view(b)),
        b.len() <= usize::MAX,
        sets_ok(rv, b),
        distinct_item_sets(sets_view(b)),
    ensures
        row_inv(rv, tc, nc, s0, b, k, row, t, n),
{
    assert forall|i: int| 0 <= i < s0.len() implies sets_view(b)[i] == s0[i] by {
        assert(sets_view(a)[i] == s0[i]);
    }
    assert forall|i: int| 0 <= i < row.len() implies processed((#[trigger] row[i]).0, t, n) && sym_ok(tc, nc, row[i].0)
        && row[i].1 < b.len() && sets_view(b)[row[i].1 as int] == goto_set(rv, s0[k], row[i].0) by {
        assert(sets_view(a)[row[i].1 as int] == sets_view(b)[row[i].1 as int]);
    }
}

spec fn done(j: int, i: int, jj: int, k: int) -> bool {
    jj < j || (jj == j && k < i)
}

/// The action on terminal `k` is that of the items processed so far.
spec fn action_entry_inv<I: LRItem>(
    rules: Seq<(usize, Seq<Symbol>)>,
    items: Seq<I>,
    row: Seq<(Symbol, usize)>,
    k: usize,
    a: Option<Action>,
    j: int,
    i: int,
) -> bool {
    &&& has_sym(row, Symbol::T(k)) ==> a == Some(Action::Shift(sym_target(row, Symbol::T(k))->0)) && forall|jj: int|
        0 <= jj < items.len() && done(j, i, jj, k as int) ==> !reduces_on(rules, #[trigger] items[jj], k)
    &&& !has_sym(row, Symbol::T(k)) ==> {
        &&& (a is None <==> forall|jj: int|
            0 <= jj < items.len() && done(j, i, jj, k as int) ==> !reduces_on(rules, #[trigger] items[jj], k))
        &&& (a matches Some(Action::Reduce(p)) ==> exists|jj: int|
            0 <= jj < items.len() && done(j, i, jj, k as int) && reduces_on(rules, #[trigger] items[jj], k)
                && items[jj].spec_prod_and_pos().0 == p)
        &&& !(a matches Some(Action::Shift(_)))
        &&& forall|j1: int, j2: int|
            0 <= j1 < items.len() && 0 <= j2 < items.len() && done(j, i, j1, k as int) && done(j, i, j2, k as int) && j1
                != j2 ==> !(reduces_on(rules, #[trigger] items[j1], k) && reduces_on(rules, #[trigger] items[j2], k))
    }
}

/// The actions filled so far are those of the items processed so far.
spec fn actions_inv<I: LRItem>(
    rules: Seq<(usize, Seq<Symbol>)>,
    items: Seq<I>,
    row: Seq<(Symbol, usize)>,
    tc: usize,
    actions: Seq<Option<Action>>,
    j: int,
    i: int,
) -> bool {
    &&& actions.len() == tc
    &&& forall|k: usize| k < tc ==> action_entry_inv(rules, items, row, k, #[trigger] actions[k as int], j, i)
}

impl<'a, I: LRItem> Builder<'a, I> {
    /// The row of the table for state `q`, or an error when the grammar has
    /// a conflict there.
    fn fill_row(&self, q: usize) -> (r: Result<(Vec<Option<Action>>, Vec<Goto>), String>)
        requires
            q < self.sets@.len(),
            q < self.trans@.len(),
            sets_ok(self.spec_rules(), self.sets@),
            lr_row(self.spec_rules(), self.term_count, self.nterm_count, sets_view(self.sets@), q as int, self.trans@[q as int]@),
        ensures
            match r {
                Ok(row) => {
                    &&& row.0@.len() == self.term_count
                    &&& row.1@.len() == self.nterm_count
                    &&& forall|k: usize| k < self.term_count ==> action_ok(self.spec_rules(), self.sets@[q as int]@.to_set(), self.trans@[q as int]@, k, #[trigger] row.0@[k as int])
                    &&& forall|n: usize| n < self.nterm_count ==> goto_ok(self.trans@[q as int]@, n, #[trigger] row.1@[n as int])
                    &&& forall|k: usize| k < self.term_count ==> !#[trigger] conflict(self.spec_rules(), self.sets@[q as int]@.to_set(), self.trans@[q as int]@, k)
                },
                Err(e) => {
                    &&& e@ == "Ambiguous grammar !"@
                    &&& exists|k: usize| k < self.term_count && #[trigger] conflict(self.spec_rules(), self.sets@[q as int]@.to_set(), self.trans@[q as int]@, k)
                },
            },
    {
        let ghost rv = self.spec_rules();
        let tc = self.term_count;
        let nc = self.nterm_count;
        let row = &self.trans[q];
        let items = &self.sets[q];
        let ghost set = items@.to_set();
        assert(sets_view(self.sets@)[q as int] == set);
        assert(all_valid(rv, items@) && items@.no_duplicates());
        let mut actions: Vec<Option<Action>> = Vec::new();
        let mut t: usize = 0;
        while t < tc
            invariant
                t <= tc,
                actions@.len() == t,
                forall|k: int| 0 <= k < t ==> actions@[k] is None,
            decreases tc - t,
        {
            actions.push(None);
            t = t + 1;
        }
        let mut gotos: Vec<Goto> = Vec::new();
        let mut t: usize = 0;
        while t < nc
            invariant
                t <= nc,
                gotos@.len() == t,
                forall|k: int| 0 <= k < t ==> gotos@[k] == Goto::NoTarget,
            decreases nc - t,
        {
            gotos.push(Goto::NoTarget);
            t = t + 1;
        }
        let mut i: usize = 0;
        while i < row.len()
            invariant
                i <= row@.len(),
                lr_row(rv, tc, nc, sets_view(self.sets@), q as int, row@),
                actions@.len() == tc,
                gotos@.len() == nc,
                forall|k: usize|
                    k < tc ==> (#[trigger] actions@[k as int]) == if exists|j: int| 0 <= j < i && row@[j].0 == Symbol::T(k) {
                        Some(Action::Shift(sym_target(row@, Symbol::T(k))->0))
                    } else {
                        None
                    },
                forall|n: usize|
                    n < nc ==> (#[trigger] gotos@[n as int]) == if exists|j: int| 0 <= j < i && row@[j].0 == Symbol::N(n) {
                        Goto::Target(sym_target(row@, Symbol::N(n))->0)
                    } else {
                        Goto::NoTarget
                    },
            decreases row.len() - i,
        {
            let (sym, st) = row[i];
            proof {
                lemma_sym_target::<I>(row@, i as int);
            }
            match sym {
                Symbol::T(k) => {
                    actions.set(k, Some(Action::Shift(st)));
                },
                Symbol::N(k) => {
                    gotos.set(k, Goto::Target(st));
                },
            }
            i = i + 1;
        }
        proof {
            assert forall|k: usize| k < tc implies (exists|j: int| 0 <= j < row@.len() && row@[j].0 == Symbol::T(k)) == has_sym(row@, Symbol::T(k)) by {
            }
            assert forall|n: usize| n < nc implies goto_ok(row@, n, #[trigger] gotos@[n as int]) by {
                assert((exists|j: int| 0 <= j < row@.len() && row@[j].0 == Symbol::N(n)) == has_sym(row@, Symbol::N(n)));
            }
            assert(actions_inv(rv, items@, row@, tc, actions@, 0, 0));
        }
        let mut j: usize = 0;
        while j < items.len()
            invariant
                j <= items@.len(),
                tc == self.term_count,
                set == items@.to_set(),
                q < self.sets@.len(),
                q < self.trans@.len(),
                *items == self.sets@[q as int],
                *row == self.trans@[q as int],
                all_valid(rv, items@),
                items@.no_duplicates(),
                rv == self.spec_rules(),
                actions_inv(rv, items@, row@, tc, actions@, j as int, 0),
            decreases items.len() - j,
        {
            let x = &items[j];
            let (p, pos) = x.prod_and_pos();
            assert(valid_item(rv, items@[j as int]));
            assert(rv[p as int].1 == self.rules@[p as int].expand@);
            let full = pos == self.rules[p].expand.len();
            let mut i: usize = 0;
            while i < tc
                invariant
                    i <= tc,
                    j < items@.len(),
                    tc == self.term_count,
                    set == items@.to_set(),
                    q < self.sets@.len(),
                    q < self.trans@.len(),
                    *items == self.sets@[q as int],
                    *row == self.trans@[q as int],
                    rv == self.spec_rules(),
                    *x == items@[j as int],
                    full == complete(rv, items@[j as int]),
                    (p, pos) == items@[j as int].spec_prod_and_pos(),
                    items@.no_duplicates(),
                    actions_inv(rv, items@, row@, tc, actions@, j as int, i as int),
                decreases tc - i,
            {
                if full && x.reduce_on(i) {
                    match actions[i] {
                        None => {
                            let ghost a0 = actions@;
                            actions.set(i, Some(Action::Reduce(p)));
                            proof {
                                assert forall|k: usize| k < tc implies action_entry_inv(rv, items@, row@, k, #[trigger] actions@[k as int], j as int, i + 1) by {
                                    if k != i {
                                        assert(actions@[k as int] == a0[k as int]);
                                    } else {
                                        assert(a0[k as int] is None);
                                        assert(reduces_on(rv, items@[j as int], k));
                                    }
                                }
                            }
                        },
                        Some(_) => {
                            proof {
                                assert(reduces_on(rv, items@[j as int], i));
                                assert(set.contains(items@[j as int]));
                                if has_sym(row@, Symbol::T(i)) {
                                    assert(conflict(rv, set, row@, i));
                                } else {
                                    let jj = choose|jj: int|
                                        0 <= jj < items@.len() && done(j as int, i as int, jj, i as int) && reduces_on(rv, #[trigger] items@[jj], i)
                                            && items@[jj].spec_prod_and_pos().0 == (actions@[i as int]->0)->Reduce_0;
                                    assert(set.contains(items@[jj]));
                                    assert(items@[jj] != items@[j as int]);
                                    assert(conflict(rv, set, row@, i));
                                }
                                assert(conflict(self.spec_rules(), self.sets@[q as int]@.to_set(), self.trans@[q as int]@, i));
                            }
                            return Err(owned("Ambiguous grammar !"));
                        },
                    }
                } else {
                    proof {
                        assert(!reduces_on(rv, items@[j as int], i));
                    }
                }
                i = i + 1;
            }
            j = j + 1;
        }
        proof {
            assert forall|k: usize| k < tc implies action_ok(rv, set, row@, k, #[trigger] actions@[k as int]) by {
                assert(action_entry_inv(rv, items@, row@, k, actions@[k as int], j as int, 0));
                if !has_sym(row@, Symbol::T(k)) {
                    if actions@[k as int] is None {
                        assert forall|x: I| #[trigger] set.contains(x) implies !reduces_on(rv, x, k) by {
                            let jj = choose|jj: int| 0 <= jj < items@.len() && items@[jj] == x;
                            assert(done(j as int, 0, jj, k as int));
                            assert(!reduces_on(rv, items@[jj], k));
                        }
                    }
                    if let Some(Action::Reduce(p2)) = actions@[k as int] {
                        let jj = choose|jj: int|
                            0 <= jj < items@.len() && done(j as int, 0, jj, k as int) && reduces_on(rv, #[trigger] items@[jj], k)
                                && items@[jj].spec_prod_and_pos().0 == p2;
                        assert(set.contains(items@[jj]));
                    }
                }
            }
            assert forall|k: usize| k < tc implies !#[trigger] conflict(rv, set, row@, k) by {
                assert(action_entry_inv(rv, items@, row@, k, actions@[k as int], j as int, 0));
                if has_sym(row@, Symbol::T(k)) {
                    assert forall|x: I| #[trigger] set.contains(x) implies !reduces_on(rv, x, k) by {
                        let jj = choose|jj: int| 0 <= jj < items@.len() && items@[jj] == x;
                        assert(done(j as int, 0, jj, k as int));
                        assert(!reduces_on(rv, items@[jj], k));
                    }
                }
                assert forall|x: I, y: I| #[trigger] set.contains(x) && #[trigger] set.contains(y) && x != y implies !(reduces_on(rv, x, k) && reduces_on(rv, y, k)) by {
                    let j1 = choose|j1: int| 0 <= j1 < items@.len() && items@[j1] == x;
                    let j2 = choose|j2: int| 0 <= j2 < items@.len() && items@[j2] == y;
                    assert(done(j as int, 0, j1, k as int));
                    assert(done(j as int, 0, j2, k as int));
                    assert(j1 != j2);
                    if has_sym(row@, Symbol::T(k)) {
                        assert(!reduces_on(rv, items@[j1], k));
                    } else {
                        assert(!(reduces_on(rv, items@[j1], k) && reduces_on(rv, items@[j2], k)));
                    }
                }
            }
        }
        Ok((actions, gotos))
    }
}


/// No state of the automaton has a conflict.
/// Every LR automaton of the grammar is free of conflicts.
pub open spec fn lr_conflict_free<I: LRItem>(rules: Seq<(usize, Seq<Symbol>)>, tc: usize, nc: usize) -> bool {
    forall|sets: Seq<Set<I>>, trans: Seq<Seq<(Symbol, usize)>>|
        #[trigger] lr_automaton(rules, tc, nc, sets, trans) ==> conflict_free(rules, tc, sets, trans)
}

pub open spec fn conflict_free<I: LRItem>(
    rules: Seq<(usize, Seq<Symbol>)>,
    tc: usize,
    sets: Seq<Set<I>>,
    trans: Seq<Seq<(Symbol, usize)>>,
) -> bool {
    forall|q: int, k: usize| 0 <= q < sets.len() && k < tc ==> !#[trigger] conflict(rules, sets[q], trans[q], k)
}

impl<'a, I: LRItem> Builder<'a, I> {
    /// The parsing table of a grammar whose LR automaton has no state that
    /// can act in two ways on a terminal: for each state, the action on
    /// each terminal and the goto on each non-terminal. The first state is
    /// that of the start rule.
    pub fn build(&mut self) -> (r: MachineTable)
        requires
            old(self).fresh(),
            old(self).spec_rules().len() > 0,
            rules_fit(old(self).spec_rules()),
            lr_conflict_free::<I>(old(self).spec_rules(), old(self).spec_term_count(), old(self).spec_nterm_count()),
        ensures
            exists|sets: Seq<Set<I>>, trans: Seq<Seq<(Symbol, usize)>>|
                {
                    &&& lr_automaton(
                        old(self).spec_rules(),
                        old(self).spec_term_count(),
                        old(self).spec_nterm_count(),
                        sets,
                        trans,
                    )
                    &&& table_of(
                        old(self).spec_rules(),
                        old(self).spec_term_count(),
                        old(self).spec_nterm_count(),
                        sets,
                        trans,
                        machine_view(r@),
                    )
                },
    {
        match self.build_checked() {
            Ok(t) => t,
            Err(_) => {
                proof {
                    assert(false);
                }
                Vec::new()
            },
        }
    }

    /// The parsing table of the grammar, or the error that a state of its
    /// LR automaton can act in two ways on a terminal.
    pub fn build_checked(&mut self) -> (r: Result<MachineTable, String>)
        requires
            old(self).fresh(),
            old(self).spec_rules().len() > 0,
            rules_fit(old(self).spec_rules()),
        ensures
            exists|sets: Seq<Set<I>>, trans: Seq<Seq<(Symbol, usize)>>|
                {
                    &&& lr_automaton(
                        old(self).spec_rules(),
                        old(self).spec_term_count(),
                        old(self).spec_nterm_count(),
                        sets,
                        trans,
                    )
                    &&& match r {
                        Ok(t) => {
                            &&& table_of(
                                old(self).spec_rules(),
                                old(self).spec_term_count(),
                                old(self).spec_nterm_count(),
                                sets,
                                trans,
                                machine_view(t@),
                            )
                            &&& conflict_free(old(self).spec_rules(), old(self).spec_term_count(), sets, trans)
                        },
                        Err(e) => {
                            &&& e@ == "Ambiguous grammar !"@
                            &&& !conflict_free(old(self).spec_rules(), old(self).spec_term_count(), sets, trans)
                        },
                    }
                },
    {
        self.build_states();
        let ghost rv = self.spec_rules();
        let ghost sets = sets_view(self.sets@);
        let ghost trans = trans_view(self.trans@);
        let mut table: MachineTable = Vec::new();
        let mut q: usize = 0;
        while q < self.sets.len()
            invariant
                rv == self.spec_rules(),
                rv == old(self).spec_rules(),
                self.term_count == old(self).term_count,
                self.nterm_count == old(self).nterm_count,
                sets == sets_view(self.sets@),
                trans == trans_view(self.trans@),
                sets_ok(rv, self.sets@),
                lr_automaton(rv, self.term_count, self.nterm_count, sets, trans),
                q <= self.sets@.len(),
                table@.len() == q,
                forall|qq: int|
                    0 <= qq < q ==> {
                        &&& (#[trigger] machine_view(table@)[qq]).0.len() == self.term_count
                        &&& machine_view(table@)[qq].1.len() == self.nterm_count
                        &&& forall|k: usize| k < self.term_count ==> action_ok(rv, sets[qq], trans[qq], k, #[trigger] machine_view(table@)[qq].0[k as int])
                        &&& forall|n: usize| n < self.nterm_count ==> goto_ok(trans[qq], n, #[trigger] machine_view(table@)[qq].1[n as int])
                        &&& forall|k: usize| k < self.term_count ==> !#[trigger] conflict(rv, sets[qq], trans[qq], k)
                    },
            decreases self.sets.len() - q,
        {
            assert(sets[q as int] == self.sets@[q as int]@.to_set());
            assert(trans[q as int] == self.trans@[q as int]@);
            assert(lr_row(rv, self.term_count, self.nterm_count, sets, q as int, trans[q as int]));
            match self.fill_row(q) {
                Ok(row) => {
                    let ghost t0 = table@;
                    table.push(row);
                    proof {
                        assert forall|qq: int| 0 <= qq < q + 1 implies {
                            &&& (#[trigger] machine_view(table@)[qq]).0.len() == self.term_count
                            &&& machine_view(table@)[qq].1.len() == self.nterm_count
                            &&& forall|k: usize| k < self.term_count ==> action_ok(rv, sets[qq], trans[qq], k, #[trigger] machine_view(table@)[qq].0[k as int])
                            &&& forall|n: usize| n < self.nterm_count ==> goto_ok(trans[qq], n, #[trigger] machine_view(table@)[qq].1[n as int])
                            &&& forall|k: usize| k < self.term_count ==> !#[trigger] conflict(rv, sets[qq], trans[qq], k)
                        } by {
                            if qq < q {
                                assert(machine_view(table@)[qq] == machine_view(t0)[qq]);
                            }
                        }
                    }
                },
                Err(e) => {
                    proof {
                        let k = choose|k: usize| k < self.term_count && #[trigger] conflict(rv, self.sets@[q as int]@.to_set(), self.trans@[q as int]@, k);
                        assert(conflict(rv, sets[q as int], trans[q as int], k));
                        assert(!conflict_free(rv, self.term_count, sets, trans));
                        assert(lr_automaton(old(self).spec_rules(), old(self).spec_term_count(), old(self).spec_nterm_count(), sets, trans));
                    }
                    return Err(e);
                },
            }
            q = q + 1;
        }
        proof {
            assert(sets.len() == self.sets@.len());
            assert(table_of(rv, self.term_count, self.nterm_count, sets, trans, machine_view(table@)));
            assert forall|q2: int, k: usize| 0 <= q2 < sets.len() && k < self.term_count implies !#[trigger] conflict(rv, sets[q2], trans[q2], k) by {
                assert(machine_view(table@)[q2].0.len() == self.term_count);
            }
            assert(conflict_free(rv, self.term_count, sets, trans));
            assert(lr_automaton(old(self).spec_rules(), old(self).spec_term_count(), old(self).spec_nterm_count(), sets, trans));
        }
        Ok(table)
    }
}

} // verus!
