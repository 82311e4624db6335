use vstd::prelude::*;

verus! {

/// Builds a fresh string from a slice.
pub fn owned(s: &str) -> (r: String)
    ensures
        r@ == s@,
{
    String::from_str(s)
}

/// The concatenation `a ++ b`.
pub fn cat2(a: &str, b: &str) -> (r: String)
    ensures
        r@ == a@ + b@,
{
    let r = String::from_str(a);
    r.concat(b)
}

/// The concatenation `a ++ b ++ c`.
pub fn cat3(a: &str, b: &str, c: &str) -> (r: String)
    ensures
        r@ == a@ + b@ + c@,
{
    let r = String::from_str(a);
    let r = r.concat(b);
    r.concat(c)
}

/// Appends one character to a string.
#[verifier::external_body]
pub(crate) fn push_char(s: &mut String, c: char)
    ensures
        final(s)@ == old(s)@.push(c),
{
    s.push(c)
}

/// Whether two strings hold the same characters.
pub fn str_eq(a: &str, b: &str) -> (r: bool)
    ensures
        r == (a@ == b@),
{
    let x = String::from_str(a);
    let y = String::from_str(b);
    x == y
}

} // verus!

verus! {

/// The characters of a string, one by one.
#[verifier::external_body]
pub(crate) fn chars_of(s: &str) -> (r: Vec<char>)
    ensures
        r@ == s@,
{
    s.chars().collect()
}

/// A string made of the given characters.
pub fn from_chars(v: &Vec<char>) -> (r: String)
    ensures
        r@ == v@,
{
    let mut r = String::new();
    let mut i: usize = 0;
    while i < v.len()
        invariant
            i <= v@.len(),
            r@ == v@.take(i as int),
        decreases v.len() - i,
    {
        push_char(&mut r, v[i]);
        i = i + 1;
        assert(r@ =~= v@.take(i as int));
    }
    assert(v@.take(v@.len() as int) =~= v@);
    r
}

/// The decimal digit of a number below ten.
pub open spec fn digit(d: nat) -> char {
    if d == 0 { '0' } else if d == 1 { '1' } else if d == 2 { '2' } else if d == 3 { '3' } else if d == 4 {
        '4'
    } else if d == 5 { '5' } else if d == 6 { '6' } else if d == 7 { '7' } else if d == 8 { '8' } else { '9' }
}

/// The decimal writing of a number, without leading zeros ("0" for zero).
pub open spec fn decimal(n: nat) -> Seq<char>
    decreases n,
{
    if n < 10 {
        seq![digit(n)]
    } else {
        decimal(n / 10).push(digit(n % 10))
    }
}

fn digit_char(d: usize) -> (c: char)
    requires
        d < 10,
    ensures
        c == digit(d as nat),
{
    if d == 0 { '0' } else if d == 1 { '1' } else if d == 2 { '2' } else if d == 3 { '3' } else if d == 4 {
        '4'
    } else if d == 5 { '5' } else if d == 6 { '6' } else if d == 7 { '7' } else if d == 8 { '8' } else { '9' }
}

/// The decimal writing of a number.
pub fn usize_to_decimal(n: usize) -> (r: String)
    ensures
        r@ == decimal(n as nat),
    decreases n,
{
    if n < 10 {
        let mut r = String::new();
        push_char(&mut r, digit_char(n));
        assert(r@ =~= seq![digit(n as nat)]);
        r
    } else {
        let mut r = usize_to_decimal(n / 10);
        push_char(&mut r, digit_char(n % 10));
        r
    }
}

} // verus!

verus! {

fn digit_char64(d: u64) -> (c: char)
    requires
        d < 10,
    ensures
        c == digit(d as nat),
{
    if d == 0 { '0' } else if d == 1 { '1' } else if d == 2 { '2' } else if d == 3 { '3' } else if d == 4 {
        '4'
    } else if d == 5 { '5' } else if d == 6 { '6' } else if d == 7 { '7' } else if d == 8 { '8' } else { '9' }
}

/// The decimal writing of a number.
pub fn u64_to_decimal(n: u64) -> (r: String)
    ensures
        r@ == decimal(n as nat),
    decreases n,
{
    if n < 10 {
        let mut r = String::new();
        push_char(&mut r, digit_char64(n));
        assert(r@ =~= seq![digit(n as nat)]);
        r
    } else {
        let mut r = u64_to_decimal(n / 10);
        push_char(&mut r, digit_char64(n % 10));
        r
    }
}

/// Appends the decimal writing of a number.
pub fn append_decimal(s: &mut String, n: usize)
    ensures
        final(s)@ == old(s)@ + decimal(n as nat),
{
    let d = usize_to_decimal(n);
    s.append(d.as_str());
}

/// Appends the decimal writing of a number.
pub fn append_decimal64(s: &mut String, n: u64)
    ensures
        final(s)@ == old(s)@ + decimal(n as nat),
{
    let d = u64_to_decimal(n);
    s.append(d.as_str());
}

} // verus!

verus! {

/// The texts of `items`, separated by ", ".
pub open spec fn comma_list(items: Seq<Seq<char>>) -> Seq<char>
    decreases items.len(),
{
    if items.len() == 0 {
        seq![]
    } else if items.len() == 1 {
        items[0]
    } else {
        comma_list(items.drop_last()) + ", "@ + items.last()
    }
}

/// What comes before item `i` of a comma-separated list.
pub open spec fn list_sep(i: int) -> Seq<char> {
    if i == 0 {
        seq![]
    } else {
        ", "@
    }
}

/// A list grows by its separator and its next item.
pub proof fn lemma_comma_list_step(items: Seq<Seq<char>>, i: int)
    requires
        0 <= i < items.len(),
    ensures
        comma_list(items.take(i + 1)) == comma_list(items.take(i)) + list_sep(i) + items[i],
{
    assert(items.take(i + 1).drop_last() =~= items.take(i));
    if i == 0 {
        assert(comma_list(items.take(0)) =~= seq![]);
        assert(comma_list(items.take(1)) == items[0]);
        assert(comma_list(items.take(i)) + list_sep(i) + items[i] =~= items[0]);
    }
}

/// Appends item `i` of a comma-separated list, with the separator before
/// it.
pub fn append_item(s: &mut String, i: usize, item: &str)
    ensures
        final(s)@ == old(s)@ + list_sep(i as int) + item@,
{
    if i > 0 {
        proof {
            reveal_strlit(", ");
        }
        s.append(", ");
    } else {
        assert(old(s)@ + list_sep(i as int) =~= old(s)@);
    }
    s.append(item);
}

} // verus!

verus! {

/// The value of a decimal digit.
pub open spec fn digit_value(c: char) -> int {
    c as int - '0' as int
}

/// The number that a string of decimal digits writes.
pub open spec fn decimal_value(s: Seq<char>) -> int
    decreases s.len(),
{
    if s.len() == 0 {
        0
    } else {
        decimal_value(s.drop_last()) * 10 + digit_value(s.last())
    }
}

proof fn lemma_digit_value(d: nat)
    requires
        d < 10,
    ensures
        digit_value(digit(d)) == d,
        '0' <= digit(d) <= '9',
        d > 0 ==> digit(d) != '0',
{
}

/// The decimal writing of a number is made of digits, has no leading zero
/// but for zero itself, and reads back as the number.
pub proof fn law_decimal_reads_back(n: nat)
    ensures
        decimal(n).len() >= 1,
        forall|i: int| 0 <= i < decimal(n).len() ==> '0' <= #[trigger] decimal(n)[i] <= '9',
        decimal(n).len() > 1 ==> decimal(n)[0] != '0',
        decimal_value(decimal(n)) == n,
    decreases n,
{
    if n < 10 {
        lemma_digit_value(n);
        assert(decimal(n).drop_last() =~= Seq::<char>::empty());
        assert(decimal(n).last() == digit(n));
        assert(decimal_value(Seq::<char>::empty()) == 0);
        assert(decimal_value(decimal(n)) == decimal_value(decimal(n).drop_last()) * 10 + digit_value(digit(n)));
    } else {
        law_decimal_reads_back(n / 10);
        lemma_digit_value(n % 10);
        let s = decimal(n / 10);
        let c = digit(n % 10);
        assert(decimal(n) == s.push(c));
        assert(decimal(n).drop_last() =~= s);
        assert(decimal(n).last() == c);
        assert(decimal(n)[0] == s[0]);
        if n / 10 < 10 {
            lemma_digit_value(n / 10);
            assert(s == seq![digit(n / 10)]);
            assert(s[0] != '0');
        } else {
            law_decimal_reads_back(n / 10 / 10);
            assert(s == decimal(n / 10 / 10).push(digit(n / 10 % 10)));
            assert(s.len() > 1);
        }
        assert(decimal_value(decimal(n)) == decimal_value(s) * 10 + digit_value(c));
        assert((n / 10) * 10 + n % 10 == n);
        assert(decimal_value(decimal(n)) == n);
        assert forall|i: int| 0 <= i < decimal(n).len() implies '0' <= #[trigger] decimal(n)[i] <= '9' by {
            if i < s.len() {
                assert(decimal(n)[i] == s[i]);
            }
        }
    }
}

/// Two numbers with the same decimal writing are equal.
pub proof fn law_decimal_injective(a: nat, b: nat)
    ensures
        decimal(a) == decimal(b) <==> a == b,
{
    law_decimal_reads_back(a);
    law_decimal_reads_back(b);
}

} // verus!
