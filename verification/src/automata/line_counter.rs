use vstd::prelude::*;

use crate::text::{cat2, chars_of, decimal, from_chars, push_char, usize_to_decimal};

verus! {

/// A location in a text: the byte offset, the line and the column (both
/// counted from one).
pub type Loc = (usize, usize, usize);

/// The number of bytes of a character in UTF-8.
pub open spec fn utf8_len(c: char) -> nat {
    if (c as u32) < 0x80 {
        1
    } else if (c as u32) < 0x800 {
        2
    } else if (c as u32) < 0x10000 {
        3
    } else {
        4
    }
}

/// The byte offset of character `k` of `s`.
pub open spec fn byte_offset(s: Seq<char>, k: int) -> nat
    decreases k,
{
    if k <= 0 {
        0
    } else {
        byte_offset(s, k - 1) + utf8_len(s[k - 1])
    }
}

/// The line of character `k` of `s`, counted from one.
pub open spec fn line_of(s: Seq<char>, k: int) -> nat
    decreases k,
{
    if k <= 0 {
        1
    } else if s[k - 1] == '\n' {
        line_of(s, k - 1) + 1
    } else {
        line_of(s, k - 1)
    }
}

/// The column of character `k` of `s`, counted from one.
pub open spec fn column_of(s: Seq<char>, k: int) -> nat
    decreases k,
{
    if k <= 0 {
        1
    } else if s[k - 1] == '\n' {
        1
    } else {
        column_of(s, k - 1) + 1
    }
}

/// The location of character `k` of `s`.
pub open spec fn loc_of(s: Seq<char>, k: int) -> (nat, nat, nat) {
    (byte_offset(s, k), line_of(s, k), column_of(s, k))
}

/// The number of bytes of a string.
#[verifier::external_body]
fn byte_len(s: &str) -> (r: usize)
    ensures
        r == byte_offset(s@, s@.len() as int),
{
    s.len()
}

/// The number of bytes of a character in UTF-8.
fn char_utf8_len(c: char) -> (r: usize)
    ensures
        r == utf8_len(c),
{
    let n = c as u32;
    if n < 0x80 {
        1
    } else if n < 0x800 {
        2
    } else if n < 0x10000 {
        3
    } else {
        4
    }
}

proof fn lemma_offset_mono(s: Seq<char>, a: int, b: int)
    requires
        0 <= a <= b,
    ensures
        byte_offset(s, a) <= byte_offset(s, b),
    decreases b,
{
    if a < b {
        lemma_offset_mono(s, a, b - 1);
    }
}

proof fn lemma_line_column_bound(s: Seq<char>, k: int)
    requires
        0 <= k,
    ensures
        line_of(s, k) <= k + 1,
        column_of(s, k) <= k + 1,
    decreases k,
{
    if k > 0 {
        lemma_line_column_bound(s, k - 1);
    }
}

/// A region of a file, from the location of its first character to that
/// of its last.
#[derive(Clone, Copy, Debug)]
pub struct Span<'a> {
    pub file: &'a str,
    pub start: (usize, usize, usize),
    pub end: (usize, usize, usize),
}

/// How a span is shown in messages.
pub open spec fn span_text(file: Seq<char>, start: (usize, usize, usize), end: (usize, usize, usize)) -> Seq<char> {
    if start.1 == end.1 {
        if start.2 == end.2 {
            "File "@ + file + ", line "@ + decimal(start.1 as nat) + ", character "@ + decimal(start.2 as nat) + ":"@
        } else {
            "File "@ + file + ", line "@ + decimal(start.1 as nat) + ", characters "@ + decimal(start.2 as nat) + "-"@
                + decimal(end.2 as nat) + ":"@
        }
    } else {
        "File "@ + file + ", line "@ + decimal(start.1 as nat) + ", character "@ + decimal(start.2 as nat)
            + " to line "@ + decimal(end.1 as nat) + ", character "@ + decimal(end.2 as nat) + ":"@
    }
}

fn append(r: String, s: &str) -> (q: String)
    ensures
        q@ == r@ + s@,
{
    r.concat(s)
}

impl<'a> Span<'a> {
    /// The span as it is shown in messages.
    pub fn to_string(&self) -> (r: String)
        ensures
            r@ == span_text(self.file@, self.start, self.end),
    {
        let mut r = cat2("File ", self.file);
        r = append(r, ", line ");
        let l1 = usize_to_decimal(self.start.1);
        r = append(r, l1.as_str());
        if self.start.1 == self.end.1 {
            if self.start.2 == self.end.2 {
                r = append(r, ", character ");
                let c1 = usize_to_decimal(self.start.2);
                r = append(r, c1.as_str());
            } else {
                r = append(r, ", characters ");
                let c1 = usize_to_decimal(self.start.2);
                r = append(r, c1.as_str());
                r = append(r, "-");
                let c2 = usize_to_decimal(self.end.2);
                r = append(r, c2.as_str());
            }
        } else {
            r = append(r, ", character ");
            let c1 = usize_to_decimal(self.start.2);
            r = append(r, c1.as_str());
            r = append(r, " to line ");
            let l2 = usize_to_decimal(self.end.1);
            r = append(r, l2.as_str());
            r = append(r, ", character ");
            let c2 = usize_to_decimal(self.end.2);
            r = append(r, c2.as_str());
        }
        r = append(r, ":");
        proof {
            reveal_strlit("File ");
            reveal_strlit(", line ");
            reveal_strlit(", character ");
            reveal_strlit(", characters ");
            reveal_strlit("-");
            reveal_strlit(" to line ");
            reveal_strlit(":");
        }
        r
    }
}

/// The characters of a string with their locations, handed out one by one.
struct CountingIter {
    chars: Vec<char>,
    i: usize,
    offset: usize,
    line: usize,
    column: usize,
}

impl CountingIter {
    spec fn wf(&self, s: Seq<char>, total: nat) -> bool {
        &&& self.chars@ == s
        &&& s.len() < usize::MAX
        &&& self.i <= s.len()
        &&& byte_offset(s, s.len() as int) == total
        &&& total <= usize::MAX
        &&& self.offset == byte_offset(s, self.i as int)
        &&& self.line == line_of(s, self.i as int)
        &&& self.column == column_of(s, self.i as int)
    }

    fn new(s: &str) -> (r: Self)
        requires
            s@.len() < usize::MAX,
        ensures
            r.wf(s@, byte_offset(s@, s@.len() as int)),
            r.i == 0,
    {
        let total = byte_len(s);
        CountingIter { chars: chars_of(s), i: 0, offset: 0, line: 1, column: 1 }
    }

    fn next(&mut self) -> (r: Option<(char, Loc)>)
        requires
            old(self).wf(old(self).chars@, byte_offset(old(self).chars@, old(self).chars@.len() as int)),
        ensures
            final(self).wf(old(self).chars@, byte_offset(old(self).chars@, old(self).chars@.len() as int)),
            old(self).i < old(self).chars@.len() ==> final(self).i == old(self).i + 1 && r == Some(
                (
                    old(self).chars@[old(self).i as int],
                    (
                        byte_offset(old(self).chars@, old(self).i as int) as usize,
                        line_of(old(self).chars@, old(self).i as int) as usize,
                        column_of(old(self).chars@, old(self).i as int) as usize,
                    ),
                ),
            ),
            old(self).i >= old(self).chars@.len() ==> final(self).i == old(self).i && r is None,
    {
        if self.i < self.chars.len() {
            let c = self.chars[self.i];
            let res = (c, (self.offset, self.line, self.column));
            let ghost s = self.chars@;
            proof {
                lemma_offset_mono(s, self.i + 1, s.len() as int);
                lemma_line_column_bound(s, self.i + 1);
            }
            self.offset = self.offset + char_utf8_len(c);
            if c == '\n' {
                self.line = self.line + 1;
                self.column = 1;
            } else {
                self.column = self.column + 1;
            }
            self.i = self.i + 1;
            Some(res)
        } else {
            None
        }
    }
}

/// The characters of a text with their locations.
pub open spec fn located(s: Seq<char>) -> Seq<(char, Loc)> {
    Seq::new(
        s.len(),
        |k: int| (s[k], (byte_offset(s, k) as usize, line_of(s, k) as usize, column_of(s, k) as usize)),
    )
}

/// The characters of a text with their locations, handed out one by one.
pub struct LineIter {
    items: Vec<(char, Loc)>,
    i: usize,
}

impl LineIter {
    #[verifier::type_invariant]
    spec fn inv(&self) -> bool {
        self.i <= self.items@.len() <= usize::MAX
    }

    /// The number of characters left to hand out.
    pub fn remaining(&self) -> (r: usize)
        ensures
            r == self.rest().len(),
    {
        proof {
            use_type_invariant(self);
        }
        self.items.len() - self.i
    }

    /// What is left to hand out.
    pub closed spec fn rest(&self) -> Seq<(char, Loc)> {
        self.items@.skip(self.i as int)
    }

    /// The characters of `s` with their locations.
    pub fn new(s: &str) -> (r: LineIter)
        requires
            s@.len() < usize::MAX,
        ensures
            r.rest() == located(s@),
    {
        let mut it = CountingIter::new(s);
        let ghost total = byte_offset(s@, s@.len() as int);
        let mut items: Vec<(char, Loc)> = Vec::new();
        while it.i < it.chars.len()
            invariant
                it.wf(s@, total),
                items@ == located(s@).take(it.i as int),
            decreases s@.len() - it.i,
        {
            let ghost k = it.i;
            match it.next() {
                Some(x) => {
                    items.push(x);
                },
                None => {},
            }
            assert(items@ =~= located(s@).take(it.i as int));
        }
        assert(items@ =~= located(s@));
        let _n = items.len();
        let r = LineIter { items, i: 0 };
        assert(r.rest() =~= located(s@));
        r
    }

    /// The next character with its location.
    pub fn next(&mut self) -> (r: Option<(char, Loc)>)
        ensures
            old(self).rest().len() == 0 ==> r is None && final(self).rest() == old(self).rest(),
            old(self).rest().len() > 0 ==> r == Some(old(self).rest()[0]) && final(self).rest() == old(self).rest().drop_first(),
        no_unwind
    {
        proof {
            use_type_invariant(&*self);
        }
        if self.i < self.items.len() {
            let x = self.items[self.i];
            assert(old(self).rest()[0] == x);
            self.i = self.i + 1;
            assert(self.rest() =~= old(self).rest().drop_first());
            Some(x)
        } else {
            None
        }
    }

    /// The next character with its location, left to hand out.
    pub fn peek(&self) -> (r: Option<(char, Loc)>)
        ensures
            self.rest().len() == 0 ==> r is None,
            self.rest().len() > 0 ==> r == Some(self.rest()[0]),
    {
        proof {
            use_type_invariant(self);
        }
        if self.i < self.items.len() {
            assert(self.rest()[0] == self.items@[self.i as int]);
            Some(self.items[self.i])
        } else {
            None
        }
    }
}

/// The characters whose byte offset lies in `[a, b]`, among the first `k`
/// characters of `s`.
pub open spec fn chars_in_bytes(s: Seq<char>, a: nat, b: nat, k: int) -> Seq<char>
    decreases k,
{
    if k <= 0 {
        seq![]
    } else if a <= byte_offset(s, k - 1) <= b {
        chars_in_bytes(s, a, b, k - 1).push(s[k - 1])
    } else {
        chars_in_bytes(s, a, b, k - 1)
    }
}

/// A text with the name of its file.
pub struct IndexedString<'a> {
    file_name: &'a str,
    s: &'a str,
}

impl<'a> IndexedString<'a> {
    pub closed spec fn file(&self) -> Seq<char> {
        self.file_name@
    }

    pub closed spec fn text(&self) -> Seq<char> {
        self.s@
    }

    pub fn new(file_name: &'a str, s: &'a str) -> (r: IndexedString<'a>)
        ensures
            r.file() == file_name@,
            r.text() == s@,
    {
        IndexedString { file_name, s }
    }

    /// The location of the first character.
    pub fn first_loc(&self) -> (r: Loc)
        ensures
            r == (0usize, 1usize, 1usize),
    {
        (0, 1, 1)
    }

    /// The span from `start` to `end` in this file.
    pub fn span(&self, start: &Loc, end: &Loc) -> (r: Span<'a>)
        ensures
            r.file@ == self.file(),
            r.start == *start,
            r.end == *end,
    {
        Span { file: self.file_name, start: *start, end: *end }
    }

    /// The text of a span: the characters from the one at byte
    /// `span.start.0` to the one at byte `span.end.0`.
    pub fn slice(&self, span: &Span) -> (r: String)
        ensures
            r@ == chars_in_bytes(self.text(), span.start.0 as nat, span.end.0 as nat, self.text().len() as int),
    {
        let total = byte_len(self.s);
        let chars = chars_of(self.s);
        let mut out: Vec<char> = Vec::new();
        let mut offset: usize = 0;
        let mut k: usize = 0;
        while k < chars.len()
            invariant
                chars@ == self.s@,
                k <= chars@.len(),
                total == byte_offset(chars@, chars@.len() as int),
                offset == byte_offset(chars@, k as int),
                out@ == chars_in_bytes(chars@, span.start.0 as nat, span.end.0 as nat, k as int),
            decreases chars.len() - k,
        {
            let c = chars[k];
            if span.start.0 <= offset && offset <= span.end.0 {
                out.push(c);
            }
            proof {
                lemma_offset_mono(chars@, k + 1, chars@.len() as int);
            }
            offset = offset + char_utf8_len(c);
            k = k + 1;
        }
        from_chars(&out)
    }
}

} // verus!
