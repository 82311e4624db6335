use vstd::prelude::*;

use super::building::{automaton_of, build_iregexp, build_states, chars_before, row_of, table_view, tagged_union, StateRow};
use super::types::{ascii_alpha, ascii_digit, behaved, is_ascii_alpha, is_ascii_digit, is_behaved, Character, IChar, Regexp};
use crate::automata::line_counter::{IndexedString, LineIter, Loc, Span};
use crate::automata::read_error::ReadError;
use crate::automata::TokenOrEof;
use crate::text::owned;

verus! {

/// The transition of a row under key `k`, if there is one (the first one).
pub open spec fn lookup(row: Seq<(Character, usize)>, k: Character) -> Option<usize>
    decreases row.len(),
{
    if row.len() == 0 {
        None
    } else if row[0].0 == k {
        Some(row[0].1)
    } else {
        lookup(row.drop_first(), k)
    }
}

/// `a`, or `b` when `a` is `None`.
pub open spec fn or_else(a: Option<usize>, b: Option<usize>) -> Option<usize> {
    match a {
        Some(x) => Some(x),
        None => b,
    }
}

/// The state reached by reading `c` from a state with transitions `row`:
/// the transition on `c` itself has priority, then those on letters,
/// digits, behaved characters and any character, in that order.
pub open spec fn transition(row: Seq<(Character, usize)>, c: char) -> Option<usize> {
    or_else(
        lookup(row, Character::Char(c)),
        or_else(
            if ascii_alpha(c) { lookup(row, Character::Alpha) } else { None },
            or_else(
                if ascii_digit(c) { lookup(row, Character::Num) } else { None },
                or_else(if behaved(c) { lookup(row, Character::Behaved) } else { None }, lookup(row, Character::Any)),
            ),
        ),
    )
}

/// Runs the automaton from state `q` on `items` for as long as it has a
/// transition: the number of characters read and the state reached.
pub open spec fn scan(table: Seq<(Seq<(Character, usize)>, Option<usize>)>, items: Seq<(char, Loc)>, q: int) -> (nat, int)
    decreases items.len(),
{
    if items.len() == 0 {
        (0, q)
    } else {
        match transition(table[q].0, items[0].0) {
            Some(n) => {
                let (k, s) = scan(table, items.drop_first(), n as int);
                (k + 1, s)
            },
            None => (0, q),
        }
    }
}

/// Every transition leads to a state of the table, and there is a state.
pub open spec fn table_wf(table: Seq<(Seq<(Character, usize)>, Option<usize>)>) -> bool {
    &&& table.len() > 0
    &&& forall|q: int, i: int|
        0 <= q < table.len() && 0 <= i < table[q].0.len() ==> (#[trigger] table[q].0[i]).1 < table.len()
}

fn find(row: &Vec<(Character, usize)>, k: Character) -> (r: Option<usize>)
    ensures
        r == lookup(row@, k),
{
    let mut i: usize = 0;
    assert(row@.skip(0) =~= row@);
    while i < row.len()
        invariant
            i <= row@.len(),
            lookup(row@, k) == lookup(row@.skip(i as int), k),
        decreases row.len() - i,
    {
        assert(row@.skip(i as int).drop_first() =~= row@.skip(i + 1));
        if row[i].0 == k {
            return Some(row[i].1);
        }
        i = i + 1;
    }
    None
}

proof fn lemma_lookup_in(row: Seq<(Character, usize)>, k: Character)
    ensures
        lookup(row, k) matches Some(n) ==> exists|i: int| 0 <= i < row.len() && row[i].1 == n,
    decreases row.len(),
{
    if row.len() > 0 && row[0].0 != k {
        lemma_lookup_in(row.drop_first(), k);
        if let Some(n) = lookup(row, k) {
            let i = choose|i: int| 0 <= i < row.drop_first().len() && row.drop_first()[i].1 == n;
            assert(row[i + 1].1 == n);
        }
    }
}

fn trans(row: &Vec<(Character, usize)>, c: char) -> (r: Option<usize>)
    ensures
        r == transition(row@, c),
{
    match find(row, Character::Char(c)) {
        Some(n) => Some(n),
        None => {
            let a = if is_ascii_alpha(c) {
                find(row, Character::Alpha)
            } else {
                None
            };
            match a {
                Some(n) => Some(n),
                None => {
                    let d = if is_ascii_digit(c) {
                        find(row, Character::Num)
                    } else {
                        None
                    };
                    match d {
                        Some(n) => Some(n),
                        None => {
                            let b = if is_behaved(c) {
                                find(row, Character::Behaved)
                            } else {
                                None
                            };
                            match b {
                                Some(n) => Some(n),
                                None => find(row, Character::Any),
                            }
                        },
                    }
                },
            }
        },
    }
}

/// A tokenizer: it reads the longest run of characters for which the
/// automaton has transitions and hands out the token that the state
/// reached accepts, by its index.
pub struct DFA<'a> {
    states: Vec<StateRow>,
    chars: LineIter,
    input: &'a IndexedString<'a>,
    next_start: Loc,
    last_span: Span<'a>,
}

impl<'a> DFA<'a> {
    #[verifier::type_invariant]
    spec fn inv(&self) -> bool {
        table_wf(table_view(self.states@))
    }

    /// The states: for each, its transitions and the token it accepts.
    pub closed spec fn table(&self) -> Seq<(Seq<(Character, usize)>, Option<usize>)> {
        table_view(self.states@)
    }

    /// The characters left to read, with their locations.
    pub closed spec fn rest(&self) -> Seq<(char, Loc)> {
        self.chars.rest()
    }

    /// Where the next token starts.
    pub closed spec fn spec_next_start(&self) -> Loc {
        self.next_start
    }

    /// The span of the last token handed out.
    pub closed spec fn spec_last_span(&self) -> Span<'a> {
        self.last_span
    }

    /// The text being read.
    pub closed spec fn spec_input(&self) -> IndexedString<'a> {
        *self.input
    }

    /// A tokenizer over `chars`, the characters of `input`.
    pub fn new(states: Vec<StateRow>, chars: LineIter, input: &'a IndexedString<'a>) -> (r: Self)
        requires
            table_wf(table_view(states@)),
        ensures
            r.table() == table_view(states@),
            r.rest() == chars.rest(),
            r.spec_next_start() == (0usize, 1usize, 1usize),
            r.spec_last_span().file@ == input.file(),
            r.spec_last_span().start == (0usize, 1usize, 1usize),
            r.spec_last_span().end == (0usize, 1usize, 1usize),
            r.spec_input() == *input,
    {
        let first = input.first_loc();
        let last_span = input.span(&first, &first);
        DFA { states, chars, input, next_start: first, last_span }
    }

    /// The next token, with its span, or the end of the input.
    pub fn next(&mut self) -> (r: Result<(Span<'a>, TokenOrEof<usize>), ReadError<'a>>)
        ensures
            final(self).table() == old(self).table(),
            final(self).spec_input() == old(self).spec_input(),
            old(self).rest().len() == 0 ==> {
                &&& r matches Ok((sp, TokenOrEof::Eof))
                &&& sp == old(self).spec_last_span()
                &&& final(self).rest() == old(self).rest()
                &&& final(self).spec_next_start() == old(self).spec_next_start()
                &&& final(self).spec_last_span() == old(self).spec_last_span()
            },
            old(self).rest().len() > 0 ==> {
                let (k, s) = scan(old(self).table(), old(self).rest(), 0);
                let curr = if k > 0 {
                    old(self).rest()[k - 1].1
                } else {
                    old(self).spec_next_start()
                };
                &&& k <= old(self).rest().len()
                &&& 0 <= s < old(self).table().len()
                &&& final(self).rest() == old(self).rest().skip(k as int)
                &&& final(self).spec_next_start() == if k < old(self).rest().len() {
                    old(self).rest()[k as int].1
                } else {
                    old(self).spec_next_start()
                }
                &&& match old(self).table()[s].1 {
                    Some(id) => {
                        &&& r matches Ok((sp, TokenOrEof::Token(t)))
                        &&& t == id
                        &&& sp.file@ == old(self).spec_input().file()
                        &&& sp.start == old(self).spec_next_start()
                        &&& sp.end == curr
                        &&& final(self).spec_last_span() == sp
                    },
                    None => {
                        &&& r matches Err(e)
                        &&& e.spec_span().file@ == old(self).spec_input().file()
                        &&& e.spec_span().start == old(self).spec_next_start()
                        &&& e.spec_span().end == curr
                        &&& e.spec_message() == "Unrecognized token at {}."@
                        &&& final(self).spec_last_span() == old(self).spec_last_span()
                    },
                }
            },
    {
        proof {
            use_type_invariant(&*self);
        }
        if self.chars.peek().is_none() {
            return Ok((self.last_span, TokenOrEof::Eof));
        }
        let ghost table = self.table();
        let ghost rest0 = self.chars.rest();
        let ghost k0 = scan(table, rest0, 0).0;
        let ghost s0 = scan(table, rest0, 0).1;
        let _total = self.chars.remaining();
        let start = self.next_start;
        let mut curr = self.next_start;
        let mut q: usize = 0;
        let mut k: usize = 0;
        let mut going = true;
        while going
            invariant
                table == table_view(self.states@),
                table_wf(table),
                q < table.len(),
                k <= rest0.len(),
                self.chars.rest() == rest0.skip(k as int),
                rest0.len() <= usize::MAX,
                k0 == scan(table, rest0, 0).0,
                s0 == scan(table, rest0, 0).1,
                going ==> self.next_start == start,
                self.states == old(self).states,
                self.input == old(self).input,
                self.last_span == old(self).last_span,
                curr == if k > 0 { rest0[k - 1].1 } else { start },
                going ==> scan(table, rest0, 0) == ((scan(table, self.chars.rest(), q as int).0 + k) as nat, scan(table, self.chars.rest(), q as int).1),
                !going ==> k0 == k,
                !going ==> s0 == q,
                !going ==> (k < rest0.len() ==> self.next_start == rest0[k as int].1),
                !going ==> (k == rest0.len() ==> self.next_start == start),
            decreases rest0.len() - k, if going { 1int } else { 0int },
        {
            let _left = self.chars.remaining();
            let ghost r = self.chars.rest();
            match self.chars.peek() {
                None => {
                    assert(scan(table, r, q as int) == (0nat, q as int));
                    going = false;
                },
                Some((c, loc)) => {
                    match trans(&self.states[q].0, c) {
                        Some(n) => {
                            proof {
                                lemma_lookup_in(table[q as int].0, Character::Char(c));
                                lemma_lookup_in(table[q as int].0, Character::Alpha);
                                lemma_lookup_in(table[q as int].0, Character::Num);
                                lemma_lookup_in(table[q as int].0, Character::Behaved);
                                lemma_lookup_in(table[q as int].0, Character::Any);
                            }
                            assert(scan(table, r, q as int) == ((scan(table, r.drop_first(), n as int).0 + 1) as nat, scan(table, r.drop_first(), n as int).1));
                            curr = loc;
                            self.chars.next();
                            assert(rest0.skip(k as int).drop_first() =~= rest0.skip(k + 1));
                            q = n;
                            k = k + 1;
                        },
                        None => {
                            assert(scan(table, r, q as int) == (0nat, q as int));
                            assert(r[0] == rest0[k as int]);
                            self.next_start = loc;
                            going = false;
                        },
                    }
                },
            }
        }
        let span = self.input.span(&start, &curr);
        match self.states[q].1 {
            Some(id) => {
                self.last_span = span;
                Ok((span, TokenOrEof::Token(id)))
            },
            None => {
                proof {
                    reveal_strlit("Unrecognized token at {}.");
                }
                Err(ReadError::from((span, owned("Unrecognized token at {}."))))
            },
        }
    }
}

/// A tokenizer that reads the tokens described by `exps` (token `i` by
/// `exps[i]`, the first one winning where several match) in `chars`, the
/// characters of `input`.
pub fn build_automaton<'a>(exps: &[Regexp], chars: LineIter, input: &'a IndexedString<'a>) -> (r: DFA<'a>)
    requires
        exps@.len() > 0,
        chars_before(exps@, exps@.len() as int) <= usize::MAX,
    ensures
        exists|sets: Seq<Set<IChar>>| automaton_of(tagged_union(exps@, exps@.len() as int), r.table(), sets),
        r.rest() == chars.rest(),
        r.spec_next_start() == (0usize, 1usize, 1usize),
        r.spec_last_span().file@ == input.file(),
        r.spec_last_span().start == (0usize, 1usize, 1usize),
        r.spec_last_span().end == (0usize, 1usize, 1usize),
        r.spec_input() == *input,
{
    let iexp = build_iregexp(exps);
    let states = build_states(&iexp);
    proof {
        let sets = choose|sets: Seq<Set<IChar>>| automaton_of(iexp, table_view(states@), sets);
        let t = table_view(states@);
        assert forall|q: int, i: int| 0 <= q < t.len() && 0 <= i < t[q].0.len() implies (#[trigger] t[q].0[i]).1
            < t.len() by {
            assert(row_of(iexp, sets, q, t[q]));
        }
    }
    DFA::new(states, chars, input)
}

} // verus!
