use vstd::prelude::*;

use super::types::{IChar, IRegexp};

verus! {

broadcast use vstd::seq_lib::group_seq_properties;

/// A set of positions, as a vector in which nothing occurs twice.
pub type CSet = Vec<IChar>;

/// Whether the expression accepts the empty word.
pub open spec fn nullable(e: IRegexp) -> bool
    decreases e,
{
    match e {
        IRegexp::Epsilon => true,
        IRegexp::Character(_) => false,
        IRegexp::Union(l, r) => nullable(*l) || nullable(*r),
        IRegexp::Concat(l, r) => nullable(*l) && nullable(*r),
        IRegexp::Star(_) => true,
    }
}

/// The positions that can begin a word of the expression.
pub open spec fn first_set(e: IRegexp) -> Set<IChar>
    decreases e,
{
    match e {
        IRegexp::Epsilon => Set::empty(),
        IRegexp::Character(c) => set![c],
        IRegexp::Union(l, r) => first_set(*l) + first_set(*r),
        IRegexp::Concat(l, r) => if nullable(*l) {
            first_set(*l) + first_set(*r)
        } else {
            first_set(*l)
        },
        IRegexp::Star(e) => first_set(*e),
    }
}

/// The positions that can end a word of the expression.
pub open spec fn last_set(e: IRegexp) -> Set<IChar>
    decreases e,
{
    match e {
        IRegexp::Epsilon => Set::empty(),
        IRegexp::Character(c) => set![c],
        IRegexp::Union(l, r) => last_set(*l) + last_set(*r),
        IRegexp::Concat(l, r) => if nullable(*r) {
            last_set(*l) + last_set(*r)
        } else {
            last_set(*r)
        },
        IRegexp::Star(e) => last_set(*e),
    }
}

/// The positions that can follow position `c` in a word of the expression.
pub open spec fn follow_set(c: IChar, e: IRegexp) -> Set<IChar>
    decreases e,
{
    match e {
        IRegexp::Epsilon => Set::empty(),
        IRegexp::Character(_) => Set::empty(),
        IRegexp::Union(l, r) => follow_set(c, *l) + follow_set(c, *r),
        IRegexp::Concat(l, r) => if last_set(*l).contains(c) {
            follow_set(c, *l) + follow_set(c, *r) + first_set(*r)
        } else {
            follow_set(c, *l) + follow_set(c, *r)
        },
        IRegexp::Star(e) => if last_set(*e).contains(c) {
            follow_set(c, *e) + first_set(*e)
        } else {
            follow_set(c, *e)
        },
    }
}

/// The set a vector stands for, when nothing occurs twice in it.
pub open spec fn set_of(v: Seq<IChar>) -> Set<IChar> {
    v.to_set()
}

/// Whether a vector holds an element.
pub fn set_contains(v: &CSet, x: &IChar) -> (r: bool)
    ensures
        r == v@.contains(*x),
{
    let mut i: usize = 0;
    while i < v.len()
        invariant
            i <= v@.len(),
            forall|j: int| 0 <= j < i ==> v@[j] != *x,
        decreases v.len() - i,
    {
        if v[i] == *x {
            return true;
        }
        i = i + 1;
    }
    false
}

/// Adds an element to a set.
pub fn set_insert(v: &mut CSet, x: IChar)
    requires
        old(v)@.no_duplicates(),
    ensures
        final(v)@.no_duplicates(),
        set_of(final(v)@) == set_of(old(v)@).insert(x),
{
    if !set_contains(v, &x) {
        v.push(x);
    }
    assert(set_of(v@) =~= set_of(old(v)@).insert(x));
}

/// Adds the elements of `w` to the set `v`.
pub fn set_union_into(v: &mut CSet, w: &CSet)
    requires
        old(v)@.no_duplicates(),
    ensures
        final(v)@.no_duplicates(),
        set_of(final(v)@) == set_of(old(v)@) + set_of(w@),
{
    let mut i: usize = 0;
    while i < w.len()
        invariant
            i <= w@.len(),
            v@.no_duplicates(),
            set_of(v@) == set_of(old(v)@) + set_of(w@.take(i as int)),
        decreases w.len() - i,
    {
        set_insert(v, w[i]);
        assert(set_of(w@.take(i + 1)) =~= set_of(w@.take(i as int)).insert(w@[i as int]));
        i = i + 1;
    }
    assert(w@.take(w@.len() as int) =~= w@);
}

/// The union of two sets.
pub fn set_union(a: &CSet, b: &CSet) -> (r: CSet)
    requires
        a@.no_duplicates(),
    ensures
        r@.no_duplicates(),
        set_of(r@) == set_of(a@) + set_of(b@),
{
    let mut r = a.clone();
    set_union_into(&mut r, b);
    r
}

/// The set holding one element.
fn singleton(c: IChar) -> (r: CSet)
    ensures
        r@.no_duplicates(),
        set_of(r@) == set![c],
{
    let mut r: CSet = Vec::new();
    r.push(c);
    assert(set_of(r@) =~= set![c]);
    r
}

/// Whether epsilon is accepted.
pub fn null(exp: &IRegexp) -> (r: bool)
    ensures
        r == nullable(*exp),
    decreases exp,
{
    match exp {
        IRegexp::Epsilon => true,
        IRegexp::Character(_) => false,
        IRegexp::Union(l, r) => null(l) || null(r),
        IRegexp::Concat(l, r) => null(l) && null(r),
        IRegexp::Star(_) => true,
    }
}

/// The FIRST set of an expression.
pub fn first(exp: &IRegexp) -> (r: CSet)
    ensures
        r@.no_duplicates(),
        set_of(r@) == first_set(*exp),
    decreases exp,
{
    match exp {
        IRegexp::Epsilon => {
            let r: CSet = Vec::new();
            assert(set_of(r@) =~= Set::empty());
            r
        },
        IRegexp::Character(c) => singleton(*c),
        IRegexp::Union(l, r) => set_union(&first(l), &first(r)),
        IRegexp::Concat(l, r) => {
            if null(l) {
                set_union(&first(l), &first(r))
            } else {
                first(l)
            }
        },
        IRegexp::Star(e) => first(e),
    }
}

/// The LAST set of an expression.
pub fn last(exp: &IRegexp) -> (r: CSet)
    ensures
        r@.no_duplicates(),
        set_of(r@) == last_set(*exp),
    decreases exp,
{
    match exp {
        IRegexp::Epsilon => {
            let r: CSet = Vec::new();
            assert(set_of(r@) =~= Set::empty());
            r
        },
        IRegexp::Character(c) => singleton(*c),
        IRegexp::Union(l, r) => set_union(&last(l), &last(r)),
        IRegexp::Concat(l, r) => {
            if null(r) {
                set_union(&last(l), &last(r))
            } else {
                last(r)
            }
        },
        IRegexp::Star(e) => last(e),
    }
}

/// The FOLLOW set of position `c` in an expression.
pub fn follow(c: &IChar, exp: &IRegexp) -> (r: CSet)
    ensures
        r@.no_duplicates(),
        set_of(r@) == follow_set(*c, *exp),
    decreases exp,
{
    match exp {
        IRegexp::Epsilon | IRegexp::Character(_) => {
            let r: CSet = Vec::new();
            assert(set_of(r@) =~= Set::empty());
            r
        },
        IRegexp::Union(l, r) => set_union(&follow(c, l), &follow(c, r)),
        IRegexp::Concat(l, r) => {
            let mut u = set_union(&follow(c, l), &follow(c, r));
            if set_contains(&last(l), c) {
                set_union_into(&mut u, &first(r));
            }
            u
        },
        IRegexp::Star(e) => {
            if set_contains(&last(e), c) {
                set_union(&follow(c, e), &first(e))
            } else {
                follow(c, e)
            }
        },
    }
}

} // verus!
