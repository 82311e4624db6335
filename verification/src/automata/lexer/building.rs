use vstd::prelude::*;

use super::sets::{first, first_set, follow, follow_set, set_contains, set_of, set_union_into, CSet};
use super::types::{ascii_alpha, ascii_digit, behaved, is_ascii_alpha, is_ascii_digit, is_behaved, Character, IChar, IRegexp, Regexp};

verus! {

broadcast use vstd::seq_lib::group_seq_properties;

/// Whether the characters of class `c` all belong to class `c1`, as far as
/// the tokenizer needs it.
pub open spec fn class_in(c: Character, c1: Character) -> bool {
    match (c, c1) {
        (Character::Char(a), Character::Char(b)) => a == b,
        (Character::Char(a), Character::Alpha) => ascii_alpha(a),
        (Character::Char(a), Character::Num) => ascii_digit(a),
        (Character::Char(a), Character::Behaved) => behaved(a),
        (Character::Alpha, Character::Alpha) => true,
        (Character::Num, Character::Num) => true,
        (Character::Alpha, Character::Behaved) => true,
        (Character::Num, Character::Behaved) => true,
        (Character::Behaved, Character::Behaved) => true,
        (_, Character::Any) => true,
        _ => false,
    }
}

fn is_in(c: &Character, c1: &Character) -> (r: bool)
    ensures
        r == class_in(*c, *c1),
{
    match (c, c1) {
        (Character::Char(a), Character::Char(b)) => *a == *b,
        (Character::Char(a), Character::Alpha) => is_ascii_alpha(*a),
        (Character::Char(a), Character::Num) => is_ascii_digit(*a),
        (Character::Char(a), Character::Behaved) => is_behaved(*a),
        (Character::Alpha, Character::Alpha) => true,
        (Character::Num, Character::Num) => true,
        (Character::Alpha, Character::Behaved) => true,
        (Character::Num, Character::Behaved) => true,
        (Character::Behaved, Character::Behaved) => true,
        (_, Character::Any) => true,
        _ => false,
    }
}

/// Whether position `ci` reads the characters of class `c`.
pub open spec fn reads(ci: IChar, c: Character) -> bool {
    match ci {
        IChar::Char(c1, _) => class_in(c, c1),
        IChar::Hash(_) => false,
    }
}

/// The state reached from state `s` by reading a character of class `c`:
/// every position that follows a position of `s` that reads `c`.
pub open spec fn next_set(exp: IRegexp, s: Set<IChar>, c: Character) -> Set<IChar> {
    Set::new(|x: IChar| exists|ci: IChar| #[trigger] s.contains(ci) && reads(ci, c) && follow_set(ci, exp).contains(x))
}

spec fn next_prefix(exp: IRegexp, s: Seq<IChar>, c: Character, i: int) -> Set<IChar> {
    Set::new(|x: IChar| exists|j: int| 0 <= j < i && reads(#[trigger] s[j], c) && follow_set(s[j], exp).contains(x))
}

/// The state reached from `s` by reading a character of class `c`.
pub fn next_state(exp: &IRegexp, s: &CSet, c: &Character) -> (r: CSet)
    ensures
        r@.no_duplicates(),
        set_of(r@) == next_set(*exp, set_of(s@), *c),
{
    let mut r: CSet = Vec::new();
    let mut i: usize = 0;
    assert(set_of(r@) =~= next_prefix(*exp, s@, *c, 0));
    while i < s.len()
        invariant
            i <= s@.len(),
            r@.no_duplicates(),
            set_of(r@) == next_prefix(*exp, s@, *c, i as int),
        decreases s.len() - i,
    {
        let ci = s[i];
        let matches = match ci {
            IChar::Char(c1, _) => is_in(c, &c1),
            IChar::Hash(_) => false,
        };
        let ghost before = set_of(r@);
        if matches {
            let f = follow(&ci, exp);
            set_union_into(&mut r, &f);
        }
        assert(set_of(r@) =~= next_prefix(*exp, s@, *c, i + 1)) by {
            assert forall|x: IChar| #[trigger] next_prefix(*exp, s@, *c, i + 1).contains(x) implies set_of(r@).contains(x) by {
                let j = choose|j: int| 0 <= j < i + 1 && reads(#[trigger] s@[j], *c) && follow_set(s@[j], *exp).contains(x);
                if j < i {
                    assert(next_prefix(*exp, s@, *c, i as int).contains(x));
                }
            }
            assert forall|x: IChar| #[trigger] set_of(r@).contains(x) implies next_prefix(*exp, s@, *c, i + 1).contains(x) by {
                if before.contains(x) {
                    let j = choose|j: int| 0 <= j < i && reads(#[trigger] s@[j], *c) && follow_set(s@[j], *exp).contains(x);
                    assert(0 <= j < i + 1 && reads(s@[j], *c) && follow_set(s@[j], *exp).contains(x));
                } else {
                    assert(reads(s@[i as int], *c) && follow_set(s@[i as int], *exp).contains(x));
                }
            }
        }
        i = i + 1;
    }
    assert(set_of(r@) =~= next_set(*exp, set_of(s@), *c)) by {
        assert forall|x: IChar| #[trigger] next_set(*exp, set_of(s@), *c).contains(x) implies set_of(r@).contains(x) by {
            let ci = choose|ci: IChar| #[trigger] set_of(s@).contains(ci) && reads(ci, *c) && follow_set(ci, *exp).contains(x);
            let j = choose|j: int| 0 <= j < s@.len() && s@[j] == ci;
            assert(reads(s@[j], *c));
        }
        assert forall|x: IChar| #[trigger] set_of(r@).contains(x) implies next_set(*exp, set_of(s@), *c).contains(x) by {
            let j = choose|j: int| 0 <= j < s@.len() && reads(#[trigger] s@[j], *c) && follow_set(s@[j], *exp).contains(x);
            assert(set_of(s@).contains(s@[j]));
        }
    }
    r
}

} // verus!

verus! {

/// The number of character classes an expression reads.
pub open spec fn char_count(e: Regexp) -> nat
    decreases e,
{
    match e {
        Regexp::Epsilon => 0,
        Regexp::Character(_) => 1,
        Regexp::Union(l, r) => char_count(*l) + char_count(*r),
        Regexp::Concat(l, r) => char_count(*l) + char_count(*r),
        Regexp::Star(e) => char_count(*e),
    }
}

/// The expression with its character classes numbered from `start`, from
/// left to right.
pub open spec fn numbered(e: Regexp, start: nat) -> IRegexp
    decreases e,
{
    match e {
        Regexp::Epsilon => IRegexp::Epsilon,
        Regexp::Character(c) => IRegexp::Character(IChar::Char(c, start as usize)),
        Regexp::Union(l, r) => IRegexp::Union(
            Box::new(numbered(*l, start)),
            Box::new(numbered(*r, start + char_count(*l))),
        ),
        Regexp::Concat(l, r) => IRegexp::Concat(
            Box::new(numbered(*l, start)),
            Box::new(numbered(*r, start + char_count(*l))),
        ),
        Regexp::Star(e) => IRegexp::Star(Box::new(numbered(*e, start))),
    }
}

/// The number of character classes of the first `k` expressions.
pub open spec fn chars_before(exps: Seq<Regexp>, k: int) -> nat
    decreases k,
{
    if k <= 0 {
        0
    } else {
        chars_before(exps, k - 1) + char_count(exps[k - 1])
    }
}

/// Expression `id`, numbered from `start` and followed by the end marker of
/// token `id`.
pub open spec fn tagged(e: Regexp, start: nat, id: nat) -> IRegexp {
    IRegexp::Concat(Box::new(numbered(e, start)), Box::new(IRegexp::Character(IChar::Hash(id as usize))))
}

/// The union of the first `k` expressions, each tagged with its index.
pub open spec fn tagged_union(exps: Seq<Regexp>, k: int) -> IRegexp
    decreases k,
{
    if k <= 1 {
        tagged(exps[0], 0, 0)
    } else {
        IRegexp::Union(
            Box::new(tagged_union(exps, k - 1)),
            Box::new(tagged(exps[k - 1], chars_before(exps, k - 1), (k - 1) as nat)),
        )
    }
}

fn number_positions(exp: &Regexp, i: &mut usize) -> (r: IRegexp)
    requires
        *old(i) + char_count(*exp) <= usize::MAX,
    ensures
        r == numbered(*exp, *old(i) as nat),
        *final(i) == *old(i) + char_count(*exp),
    decreases exp,
{
    match exp {
        Regexp::Epsilon => IRegexp::Epsilon,
        Regexp::Character(c) => {
            let e = IRegexp::Character(IChar::Char(*c, *i));
            *i = *i + 1;
            e
        },
        Regexp::Union(l, r) => {
            let a = number_positions(l, i);
            let b = number_positions(r, i);
            IRegexp::Union(Box::new(a), Box::new(b))
        },
        Regexp::Concat(l, r) => {
            let a = number_positions(l, i);
            let b = number_positions(r, i);
            IRegexp::Concat(Box::new(a), Box::new(b))
        },
        Regexp::Star(e) => {
            let a = number_positions(e, i);
            IRegexp::Star(Box::new(a))
        },
    }
}

fn transform(exp: &Regexp, id: usize, i: &mut usize) -> (r: IRegexp)
    requires
        *old(i) + char_count(*exp) <= usize::MAX,
    ensures
        r == tagged(*exp, *old(i) as nat, id as nat),
        *final(i) == *old(i) + char_count(*exp),
{
    let e = number_positions(exp, i);
    IRegexp::Concat(Box::new(e), Box::new(IRegexp::Character(IChar::Hash(id))))
}

proof fn lemma_chars_before_mono(exps: Seq<Regexp>, a: int, b: int)
    requires
        0 <= a <= b,
    ensures
        chars_before(exps, a) <= chars_before(exps, b),
    decreases b,
{
    if a < b {
        lemma_chars_before_mono(exps, a, b - 1);
    }
}

/// The union of the expressions, each with its positions numbered and
/// followed by the end marker of its index.
pub fn build_iregexp(exps: &[Regexp]) -> (r: IRegexp)
    requires
        exps@.len() > 0,
        chars_before(exps@, exps@.len() as int) <= usize::MAX,
    ensures
        r == tagged_union(exps@, exps@.len() as int),
{
    let mut i: usize = 0;
    proof {
        lemma_chars_before_mono(exps@, 1, exps@.len() as int);
    }
    let mut acc = transform(&exps[0], 0, &mut i);
    let mut id: usize = 1;
    while id < exps.len()
        invariant
            1 <= id <= exps@.len(),
            i == chars_before(exps@, id as int),
            chars_before(exps@, exps@.len() as int) <= usize::MAX,
            acc == tagged_union(exps@, id as int),
        decreases exps.len() - id,
    {
        proof {
            lemma_chars_before_mono(exps@, id + 1, exps@.len() as int);
        }
        let e = transform(&exps[id], id, &mut i);
        acc = IRegexp::Union(Box::new(acc), Box::new(e));
        id = id + 1;
    }
    acc
}

} // verus!

verus! {

/// A state of the tokenizer: its transitions, by character class, and the
/// token it accepts, if any.
pub type StateRow = (Vec<(Character, usize)>, Option<usize>);

/// The view of a state.
pub open spec fn row_view(r: StateRow) -> (Seq<(Character, usize)>, Option<usize>) {
    (r.0@, r.1)
}

/// The view of a table of states.
pub open spec fn table_view(t: Seq<StateRow>) -> Seq<(Seq<(Character, usize)>, Option<usize>)> {
    t.map_values(|r: StateRow| row_view(r))
}

/// Whether `a` is the token that a state `s` accepts: the least index of
/// an end marker in `s`, or `None` when there is none.
pub open spec fn accepts_as(s: Set<IChar>, a: Option<usize>) -> bool {
    match a {
        None => forall|i: usize| !(#[trigger] s.contains(IChar::Hash(i))),
        Some(i) => s.contains(IChar::Hash(i)) && forall|j: usize| #[trigger] s.contains(IChar::Hash(j)) ==> i <= j,
    }
}

/// Whether some position of `s` reads class `c`.
pub open spec fn has_class(s: Set<IChar>, c: Character) -> bool {
    exists|n: usize| #[trigger] s.contains(IChar::Char(c, n))
}

/// Whether the key `c` occurs among the transitions.
pub open spec fn has_key(row: Seq<(Character, usize)>, c: Character) -> bool {
    exists|i: int| 0 <= i < row.len() && #[trigger] row[i].0 == c
}

/// Row `q` describes state `sets[q]`: it accepts the right token, and it
/// has one transition per class read in the state, to the state reached.
pub open spec fn row_of(exp: IRegexp, sets: Seq<Set<IChar>>, q: int, row: (Seq<(Character, usize)>, Option<usize>)) -> bool {
    &&& accepts_as(sets[q], row.1)
    &&& forall|i: int, j: int| 0 <= i < j < row.0.len() ==> row.0[i].0 != row.0[j].0
    &&& forall|c: Character| has_class(sets[q], c) <==> has_key(row.0, c)
    &&& forall|i: int|
        0 <= i < row.0.len() ==> (#[trigger] row.0[i]).1 < sets.len() && sets[row.0[i].1 as int] == next_set(
            exp,
            sets[q],
            row.0[i].0,
        )
}

/// Whether the sets are pairwise different.
pub open spec fn distinct_sets(sets: Seq<Set<IChar>>) -> bool {
    forall|i: int, j: int| 0 <= i < sets.len() && 0 <= j < sets.len() && i != j ==> sets[i] != sets[j]
}

/// The table is the deterministic automaton of `exp` whose states are the
/// sets `sets`: state 0 is the FIRST set of `exp`, no two states are the
/// same set, and each row describes its state.
pub open spec fn automaton_of(
    exp: IRegexp,
    table: Seq<(Seq<(Character, usize)>, Option<usize>)>,
    sets: Seq<Set<IChar>>,
) -> bool {
    &&& table.len() == sets.len()
    &&& sets.len() > 0
    &&& sets[0] == first_set(exp)
    &&& distinct_sets(sets)
    &&& forall|q: int| 0 <= q < sets.len() ==> row_of(exp, sets, q, #[trigger] table[q])
}

spec fn sets_of(found: Seq<CSet>) -> Seq<Set<IChar>> {
    found.map_values(|v: CSet| set_of(v@))
}

spec fn extends(a: Seq<Set<IChar>>, b: Seq<Set<IChar>>) -> bool {
    b.len() >= a.len() && forall|i: int| 0 <= i < a.len() ==> b[i] == a[i]
}

proof fn lemma_rows_extend(
    exp: IRegexp,
    a: Seq<Set<IChar>>,
    b: Seq<Set<IChar>>,
    table: Seq<(Seq<(Character, usize)>, Option<usize>)>,
    k: int,
)
    requires
        extends(a, b),
        k <= a.len(),
        forall|q: int| 0 <= q < k ==> row_of(exp, a, q, #[trigger] table[q]),
    ensures
        forall|q: int| 0 <= q < k ==> row_of(exp, b, q, #[trigger] table[q]),
{
    assert forall|q: int| 0 <= q < k implies row_of(exp, b, q, #[trigger] table[q]) by {
        assert(row_of(exp, a, q, table[q]));
        assert(b[q] == a[q]);
        let row = table[q];
        assert forall|i: int| 0 <= i < row.0.len() implies (#[trigger] row.0[i]).1 < b.len() && b[row.0[i].1 as int]
            == next_set(exp, b[q], row.0[i].0) by {
            assert(a[row.0[i].1 as int] == b[row.0[i].1 as int]);
        }
    }
}

/// Whether every element of `a` is in `b`.
fn subset(a: &CSet, b: &CSet) -> (r: bool)
    ensures
        r == set_of(a@).subset_of(set_of(b@)),
{
    let mut i: usize = 0;
    while i < a.len()
        invariant
            i <= a@.len(),
            forall|j: int| 0 <= j < i ==> b@.contains(#[trigger] a@[j]),
        decreases a.len() - i,
    {
        if !set_contains(b, &a[i]) {
            assert(set_of(a@).contains(a@[i as int]));
            return false;
        }
        i = i + 1;
    }
    true
}

/// Whether two vectors hold the same elements.
fn same_set(a: &CSet, b: &CSet) -> (r: bool)
    ensures
        r == (set_of(a@) == set_of(b@)),
{
    let r = subset(a, b) && subset(b, a);
    if r {
        assert(set_of(a@) =~= set_of(b@));
    }
    r
}

/// The index of a state equal to `t`, which is added when there is none.
fn find_or_add(found: &mut Vec<CSet>, t: CSet) -> (r: usize)
    requires
        distinct_sets(sets_of(old(found)@)),
    ensures
        distinct_sets(sets_of(final(found)@)),
        extends(sets_of(old(found)@), sets_of(final(found)@)),
        final(found)@.len() <= usize::MAX,
        forall|i: int| 0 <= i < old(found)@.len() ==> final(found)@[i] == old(found)@[i],
        final(found)@.len() == old(found)@.len() || (final(found)@.len() == old(found)@.len() + 1
            && final(found)@.last() == t),
        r < final(found)@.len(),
        set_of(final(found)@[r as int]@) == set_of(t@),
{
    let mut i: usize = 0;
    while i < found.len()
        invariant
            i <= found@.len(),
            found@ == old(found)@,
            distinct_sets(sets_of(old(found)@)),
            forall|j: int| 0 <= j < i ==> set_of(found@[j]@) != set_of(t@),
        decreases found.len() - i,
    {
        if same_set(&found[i], &t) {
            return i;
        }
        i = i + 1;
    }
    let n = found.len();
    found.push(t);
    let _len = found.len();
    assert(distinct_sets(sets_of(found@))) by {
        assert forall|a: int, b: int|
            0 <= a < sets_of(found@).len() && 0 <= b < sets_of(found@).len() && a != b implies sets_of(found@)[a]
            != sets_of(found@)[b] by {
            if a < n && b < n {
                assert(sets_of(old(found)@)[a] != sets_of(old(found)@)[b]);
            }
        }
    }
    n
}

spec fn is_char_of(x: IChar, c: Character) -> bool {
    match x {
        IChar::Char(c1, _) => c1 == c,
        IChar::Hash(_) => false,
    }
}

/// The character classes read in a state, each once, and the token the
/// state accepts.
fn classes(s: &CSet) -> (r: (Vec<Character>, Option<usize>))
    ensures
        r.0@.no_duplicates(),
        forall|c: Character| has_class(set_of(s@), c) <==> r.0@.contains(c),
        accepts_as(set_of(s@), r.1),
{
    let mut chars: Vec<Character> = Vec::new();
    let mut accept: Option<usize> = None;
    let mut i: usize = 0;
    while i < s.len()
        invariant
            i <= s@.len(),
            chars@.no_duplicates(),
            forall|c: Character| (exists|j: int| 0 <= j < i && #[trigger] is_char_of(s@[j], c)) <==> #[trigger] chars@.contains(c),
            match accept {
                None => forall|j: int, h: usize| 0 <= j < i ==> s@[j] != IChar::Hash(h),
                Some(h) => (exists|j: int| 0 <= j < i && s@[j] == IChar::Hash(h)) && forall|j: int, h2: usize|
                    0 <= j < i && s@[j] == IChar::Hash(h2) ==> h <= h2,
            },
        decreases s.len() - i,
    {
        match s[i] {
            IChar::Char(c, n) => {
                let ghost before = chars@;
                let mut found = false;
                let mut k: usize = 0;
                while k < chars.len()
                    invariant
                        k <= chars@.len(),
                        found <==> exists|m: int| 0 <= m < k && chars@[m] == c,
                    decreases chars.len() - k,
                {
                    if chars[k] == c {
                        found = true;
                    }
                    k = k + 1;
                }
                if !found {
                    chars.push(c);
                }
                assert forall|c2: Character|
                    (exists|j: int| 0 <= j < i + 1 && #[trigger] is_char_of(s@[j], c2)) <==> #[trigger] chars@.contains(c2) by {
                    if chars@.contains(c2) && c2 != c {
                        let m = choose|m: int| 0 <= m < chars@.len() && chars@[m] == c2;
                        assert(before.contains(c2));
                    }
                    if c2 == c {
                        assert(is_char_of(s@[i as int], c));
                    }
                }
            },
            IChar::Hash(h) => {
                match accept {
                    None => {
                        accept = Some(h);
                    },
                    Some(a) => {
                        if h < a {
                            accept = Some(h);
                        }
                    },
                }
            },
        }
        i = i + 1;
    }
    proof {
        assert forall|c: Character| has_class(set_of(s@), c) <==> chars@.contains(c) by {
            if has_class(set_of(s@), c) {
                let n = choose|n: usize| #[trigger] set_of(s@).contains(IChar::Char(c, n));
                let j = choose|j: int| 0 <= j < s@.len() && s@[j] == IChar::Char(c, n);
                assert(is_char_of(s@[j], c));
            }
            if chars@.contains(c) {
                let j = choose|j: int| 0 <= j < s@.len() && #[trigger] is_char_of(s@[j], c);
                let n = s@[j]->Char_1;
                assert(set_of(s@).contains(IChar::Char(c, n)));
            }
        }
        match accept {
            None => {
                assert forall|h: usize| !(#[trigger] set_of(s@).contains(IChar::Hash(h))) by {
                    if set_of(s@).contains(IChar::Hash(h)) {
                        let j = choose|j: int| 0 <= j < s@.len() && s@[j] == IChar::Hash(h);
                    }
                }
            },
            Some(a) => {
                assert forall|h: usize| #[trigger] set_of(s@).contains(IChar::Hash(h)) implies a <= h by {
                    let j = choose|j: int| 0 <= j < s@.len() && s@[j] == IChar::Hash(h);
                }
                let j = choose|j: int| 0 <= j < s@.len() && s@[j] == IChar::Hash(a);
                assert(set_of(s@).contains(s@[j]));
            },
        }
    }
    (chars, accept)
}

} // verus!

verus! {

/// The deterministic automaton of a numbered expression: state 0 reads
/// the FIRST set, and each state is a set of positions.
pub fn build_states(exp: &IRegexp) -> (r: Vec<StateRow>)
    ensures
        exists|sets: Seq<Set<IChar>>| automaton_of(*exp, table_view(r@), sets),
{
    let mut found: Vec<CSet> = Vec::new();
    found.push(first(exp));
    let mut table: Vec<StateRow> = Vec::new();
    let mut k: usize = 0;
    while k < found.len()
        invariant
            1 <= found@.len() <= usize::MAX,
            k <= found@.len(),
            table@.len() == k,
            forall|i: int| 0 <= i < found@.len() ==> (#[trigger] found@[i])@.no_duplicates(),
            sets_of(found@)[0] == first_set(*exp),
            distinct_sets(sets_of(found@)),
            forall|q: int| 0 <= q < k ==> row_of(*exp, sets_of(found@), q, #[trigger] table_view(table@)[q]),
        decreases usize::MAX - found@.len(), found@.len() - k,
    {
        let (chars, accept) = classes(&found[k]);
        let ghost sets0 = sets_of(found@);
        let ghost len0 = found@.len();
        let mut trans: Vec<(Character, usize)> = Vec::new();
        let mut j: usize = 0;
        while j < chars.len()
            invariant
                j <= chars@.len(),
                k < len0 <= found@.len() <= usize::MAX,
                sets0.len() == len0,
                trans@.len() == j,
                extends(sets0, sets_of(found@)),
                forall|i: int| 0 <= i < found@.len() ==> (#[trigger] found@[i])@.no_duplicates(),
                distinct_sets(sets_of(found@)),
                forall|i: int|
                    0 <= i < j ==> (#[trigger] trans@[i]).0 == chars@[i] && trans@[i].1 < found@.len() && sets_of(
                        found@,
                    )[trans@[i].1 as int] == next_set(*exp, sets0[k as int], chars@[i]),
            decreases chars.len() - j,
        {
            let c = chars[j];
            let t = next_state(exp, &found[k], &c);
            proof {
                assert(set_of(found@[k as int]@) == sets_of(found@)[k as int]);
            }
            let ghost before = found@;
            let ghost trans0 = trans@;
            let ghost tv = t@;
            let id = find_or_add(&mut found, t);
            assert forall|i: int| 0 <= i < found@.len() implies (#[trigger] found@[i])@.no_duplicates() by {
                if i < before.len() {
                    assert(found@[i] == before[i]);
                }
            }
            trans.push((c, id));
            proof {
                assert forall|i: int| 0 <= i < j + 1 implies (#[trigger] trans@[i]).0 == chars@[i] && trans@[i].1
                    < found@.len() && sets_of(found@)[trans@[i].1 as int] == next_set(*exp, sets0[k as int], chars@[i]) by {
                    if i < j {
                        assert(trans@[i] == trans0[i]);
                        assert(sets_of(found@)[trans0[i].1 as int] == sets_of(before)[trans0[i].1 as int]);
                    } else {
                        assert(sets_of(found@)[id as int] == set_of(found@[id as int]@));
                        assert(set_of(tv) == next_set(*exp, set_of(before[k as int]@), c));
                        assert(sets_of(before)[k as int] == sets0[k as int]);
                    }
                }
            }
            j = j + 1;
        }
        let ghost sets1 = sets_of(found@);
        proof {
            lemma_rows_extend(*exp, sets0, sets1, table_view(table@), k as int);
        }
        let ghost row = (trans@, accept);
        proof {
            assert(sets1[k as int] == sets0[k as int]);
            assert forall|c: Character| has_class(sets1[k as int], c) <==> has_key(trans@, c) by {
                if has_class(sets1[k as int], c) {
                    let i = choose|i: int| 0 <= i < chars@.len() && chars@[i] == c;
                    assert(trans@[i].0 == c);
                }
                if has_key(trans@, c) {
                    let i = choose|i: int| 0 <= i < trans@.len() && #[trigger] trans@[i].0 == c;
                    assert(chars@[i] == c);
                }
            }
            assert forall|a: int, b: int| 0 <= a < b < trans@.len() implies trans@[a].0 != trans@[b].0 by {
                assert(chars@[a] == trans@[a].0);
                assert(chars@[b] == trans@[b].0);
            }
            assert(row_of(*exp, sets1, k as int, row));
        }
        let ghost table0 = table@;
        table.push((trans, accept));
        proof {
            assert forall|q: int| 0 <= q < k + 1 implies row_of(*exp, sets1, q, #[trigger] table_view(table@)[q]) by {
                if q < k {
                    assert(table_view(table@)[q] == table_view(table0)[q]);
                }
            }
        }
        k = k + 1;
    }
    proof {
        assert(automaton_of(*exp, table_view(table@), sets_of(found@)));
    }
    table
}

} // verus!
