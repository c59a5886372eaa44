//! Character-level helpers: conversions between `String` and characters,
//! decimal formatting and parsing of 64-bit integers.
use vstd::prelude::*;
use vstd::std_specs::iter::IteratorSpec;

verus! {

/// The characters of a string slice, in order.
pub fn chars_of(s: &str) -> (r: Vec<char>)
    ensures
        r@ == s@,
{
    let mut out: Vec<char> = Vec::new();
    let mut it = s.chars();
    for c in iter: it
        invariant
            out@ == iter.seq().take(iter.index() as int),
    {
        out.push(c);
    }
    out
}

/// Appends one character to a `String` (std's `String::push`).
#[verifier::external_body]
pub fn push_char(s: &mut String, c: char)
    ensures
        final(s)@ == old(s)@.push(c),
{
    s.push(c);
}

/// A `String` holding exactly the given characters.
pub fn string_from_chars(cs: &Vec<char>) -> (r: String)
    ensures
        r@ == cs@,
{
    let mut out = String::new();
    let mut i: usize = 0;
    while i < cs.len()
        invariant
            i <= cs.len(),
            out@ == cs@.take(i as int),
        decreases cs.len() - i,
    {
        push_char(&mut out, cs[i]);
        assert(cs@.take(i + 1) == cs@.take(i as int).push(cs@[i as int]));
        i = i + 1;
    }
    assert(cs@.take(cs.len() as int) == cs@);
    out
}

/// A fresh `String` copied from a string slice.
pub fn owned(s: &str) -> (r: String)
    ensures
        r@ == s@,
{
    String::from_str(s)
}

/// Appends a string slice to a `String`.
pub fn push_str(s: &mut String, t: &str)
    ensures
        final(s)@ == old(s)@ + t@,
{
    s.append(t);
}

/// Whether two string slices hold the same characters.
pub fn str_is(s: &str, t: &str) -> (r: bool)
    ensures
        r == (s@ == t@),
{
    let a = chars_of(s);
    let b = chars_of(t);
    if a.len() != b.len() {
        return false;
    }
    let mut i: usize = 0;
    while i < a.len()
        invariant
            a@ == s@,
            b@ == t@,
            a.len() == b.len(),
            i <= a.len(),
            forall|j: int| 0 <= j < i ==> a@[j] == b@[j],
        decreases a.len() - i,
    {
        if a[i] != b[i] {
            return false;
        }
        i = i + 1;
    }
    assert(a@ =~= b@);
    true
}

/// Whether the characters of `s` start with `c`.
pub fn starts_with_char(s: &str, c: char) -> (r: bool)
    ensures
        r == (s@.len() > 0 && s@[0] == c),
{
    let cs = chars_of(s);
    cs.len() > 0 && cs[0] == c
}

/// Whether the characters of `s` end with `c`.
pub fn ends_with_char(s: &str, c: char) -> (r: bool)
    ensures
        r == (s@.len() > 0 && s@[s@.len() - 1] == c),
{
    let cs = chars_of(s);
    cs.len() > 0 && cs[cs.len() - 1] == c
}

/// The decimal digit character for `d` (`0 <= d < 10`).
pub open spec fn digit_char(d: int) -> char {
    if d == 0 { '0' }
    else if d == 1 { '1' }
    else if d == 2 { '2' }
    else if d == 3 { '3' }
    else if d == 4 { '4' }
    else if d == 5 { '5' }
    else if d == 6 { '6' }
    else if d == 7 { '7' }
    else if d == 8 { '8' }
    else { '9' }
}

/// Whether `c` is an ASCII decimal digit.
pub open spec fn is_digit(c: char) -> bool {
    '0' <= c && c <= '9'
}

/// The value of an ASCII decimal digit.
pub open spec fn digit_value(c: char) -> int {
    (c as int) - ('0' as int)
}

/// The decimal representation of a natural number, without leading zeros.
pub open spec fn nat_text(n: nat) -> Seq<char>
    decreases n,
{
    if n < 10 {
        seq![digit_char(n as int)]
    } else {
        nat_text(n / 10).push(digit_char((n % 10) as int))
    }
}

/// The decimal representation of an integer, with a leading `-` when negative.
pub open spec fn int_text(n: int) -> Seq<char> {
    if n < 0 {
        seq!['-'] + nat_text((-n) as nat)
    } else {
        nat_text(n as nat)
    }
}

/// Whether every character of `s` is an ASCII digit.
pub open spec fn all_digits(s: Seq<char>) -> bool {
    forall|i: int| 0 <= i < s.len() ==> is_digit(#[trigger] s[i])
}

/// The value of a sequence of decimal digits.
pub open spec fn digits_value(s: Seq<char>) -> int
    decreases s.len(),
{
    if s.len() == 0 {
        0
    } else {
        10 * digits_value(s.drop_last()) + digit_value(s.last())
    }
}

/// The integer that a decimal literal denotes: an optional `+` or `-`, then one or more
/// ASCII digits. `None` when the text is not such a literal.
pub open spec fn literal_value(s: Seq<char>) -> Option<int> {
    if s.len() > 1 && (s[0] == '-' || s[0] == '+') {
        let body = s.drop_first();
        if all_digits(body) {
            if s[0] == '-' { Some(-digits_value(body)) } else { Some(digits_value(body)) }
        } else {
            None
        }
    } else if s.len() > 0 && all_digits(s) && s[0] != '-' && s[0] != '+' {
        Some(digits_value(s))
    } else {
        None
    }
}

/// What parsing `s` as an `i64` gives: the literal's value when there is one and it fits.
pub open spec fn parse_i64_spec(s: Seq<char>) -> Option<i64> {
    match literal_value(s) {
        Some(v) => if i64::MIN <= v <= i64::MAX { Some(v as i64) } else { None },
        None => None,
    }
}

proof fn lemma_digits_value_nonneg(s: Seq<char>)
    requires
        all_digits(s),
    ensures
        digits_value(s) >= 0,
    decreases s.len(),
{
    if s.len() > 0 {
        assert(is_digit(s[s.len() - 1]));
        lemma_digits_value_nonneg(s.drop_last());
    }
}

proof fn lemma_digits_value_grows(s: Seq<char>, i: int)
    requires
        all_digits(s),
        0 <= i <= s.len(),
    ensures
        digits_value(s.take(i)) <= digits_value(s),
    decreases s.len(),
{
    if i < s.len() {
        assert(s.drop_last().take(i) == s.take(i));
        lemma_digits_value_grows(s.drop_last(), i);
        lemma_digits_value_nonneg(s.drop_last());
        assert(is_digit(s[s.len() - 1]));
    } else {
        assert(s.take(i) == s);
    }
}

/// Parses a decimal `i64` literal: an optional sign, then ASCII digits.
pub fn parse_i64(s: &str) -> (r: Option<i64>)
    ensures
        r == parse_i64_spec(s@),
{
    let cs = chars_of(s);
    let n = cs.len();
    if n == 0 {
        return None;
    }
    let negative = cs[0] == '-';
    let signed = cs[0] == '-' || cs[0] == '+';
    if signed && n == 1 {
        return None;
    }
    let start: usize = if signed { 1 } else { 0 };
    let ghost body = cs@.skip(start as int);
    proof {
        if signed {
            assert(body == s@.drop_first());
        } else {
            assert(body == s@);
        }
    }
    let mut acc: i128 = 0;
    let mut i: usize = start;
    while i < n
        invariant
            cs@ == s@,
            n == cs.len(),
            start <= i <= n,
            start == (if signed { 1usize } else { 0usize }),
            signed == (s@[0] == '-' || s@[0] == '+'),
            negative == (s@[0] == '-'),
            s@.len() > 0,
            signed ==> s@.len() > 1 && body == s@.drop_first(),
            !signed ==> body == s@,
            body == cs@.skip(start as int),
            body.len() == n - start,
            all_digits(body.take(i - start)),
            acc == digits_value(body.take(i - start)),
            0 <= acc <= 0x8000_0000_0000_0000,
        decreases n - i,
    {
        let c = cs[i];
        assert(body[i - start] == c);
        if c < '0' || c > '9' {
            assert(!all_digits(body));
            return None;
        }
        let d = (c as u32 - '0' as u32) as i128;
        let ghost prev = body.take(i - start);
        assert(body.take(i + 1 - start).drop_last() == prev);
        assert(body.take(i + 1 - start).last() == c);
        acc = acc * 10 + d;
        assert(all_digits(body.take(i + 1 - start)));
        if acc > 0x8000_0000_0000_0000 {
            proof {
                if all_digits(body) {
                    lemma_digits_value_grows(body, i + 1 - start);
                    assert(body.take(body.len() as int) == body);
                }
            }
            return None;
        }
        i = i + 1;
    }
    assert(body.take(n - start) == body);
    if negative {
        Some((0 - acc) as i64)
    } else if acc <= 0x7fff_ffff_ffff_ffff {
        Some(acc as i64)
    } else {
        None
    }
}

proof fn lemma_nat_text_small(m: nat)
    requires
        m < 10,
    ensures
        nat_text(m) == seq![digit_char(m as int)],
{
}

/// The decimal text of a `u64`.
pub fn format_u64(n: u64) -> (r: String)
    ensures
        r@ == nat_text(n as nat),
{
    let mut m: u64 = n;
    // digits collected least significant first
    let mut rev: Vec<char> = Vec::new();
    while m >= 10
        invariant
            nat_text(n as nat) == nat_text(m as nat) + rev@.reverse(),
        decreases m,
    {
        let d = m % 10;
        let c = digit_of(d);
        let ghost old_m = m;
        let ghost prev_rev = rev@;
        rev.push(c);
        m = m / 10;
        assert(nat_text(old_m as nat) == nat_text(m as nat).push(c));
        assert(rev@.reverse() =~= seq![c] + prev_rev.reverse());
        assert(nat_text(m as nat) + rev@.reverse() =~= nat_text(m as nat).push(c) + prev_rev.reverse());
    }
    let c = digit_of(m);
    proof { lemma_nat_text_small(m as nat); }
    let ghost prev_rev = rev@;
    rev.push(c);
    assert(nat_text(n as nat) =~= rev@.reverse()) by {
        assert(rev@.reverse() =~= seq![c] + prev_rev.reverse());
    }
    let mut out: Vec<char> = Vec::new();
    let mut k: usize = rev.len();
    while k > 0
        invariant
            k <= rev.len(),
            out@ == rev@.subrange(k as int, rev@.len() as int).reverse(),
        decreases k,
    {
        k = k - 1;
        out.push(rev[k]);
        assert(rev@.subrange(k as int, rev@.len() as int).reverse() =~= rev@.subrange(k + 1, rev@.len() as int).reverse().push(rev@[k as int]));
    }
    assert(rev@.subrange(0, rev@.len() as int) == rev@);
    string_from_chars(&out)
}

/// The decimal text of an `i64`.
pub fn format_i64(n: i64) -> (r: String)
    ensures
        r@ == int_text(n as int),
{
    if n < 0 {
        let m: u64 = (0 - (n as i128)) as u64;
        let digits = format_u64(m);
        let mut out = owned("-");
        proof { reveal_strlit("-"); }
        push_str(&mut out, digits.as_str());
        assert(out@ =~= seq!['-'] + nat_text((-(n as int)) as nat));
        out
    } else {
        format_u64(n as u64)
    }
}

/// The digit character for a value below ten.
fn digit_of(d: u64) -> (c: char)
    requires
        d < 10,
    ensures
        c == digit_char(d as int),
{
    if d == 0 { '0' } else if d == 1 { '1' } else if d == 2 { '2' } else if d == 3 { '3' }
    else if d == 4 { '4' } else if d == 5 { '5' } else if d == 6 { '6' } else if d == 7 { '7' }
    else if d == 8 { '8' } else { '9' }
}

proof fn lemma_digit_char(d: int)
    requires
        0 <= d < 10,
    ensures
        is_digit(digit_char(d)),
        digit_value(digit_char(d)) == d,
{
    assert(('0' as int) == 48 && ('1' as int) == 49 && ('2' as int) == 50 && ('3' as int) == 51
        && ('4' as int) == 52 && ('5' as int) == 53 && ('6' as int) == 54 && ('7' as int) == 55
        && ('8' as int) == 56 && ('9' as int) == 57);
}

proof fn lemma_nat_text(n: nat)
    ensures
        nat_text(n).len() > 0,
        all_digits(nat_text(n)),
        digits_value(nat_text(n)) == n,
    decreases n,
{
    if n < 10 {
        lemma_digit_char(n as int);
        assert(nat_text(n).drop_last() =~= Seq::<char>::empty());
        assert(digits_value(Seq::<char>::empty()) == 0);
        assert(digits_value(nat_text(n)) == 10 * digits_value(nat_text(n).drop_last()) + digit_value(nat_text(n).last()));
    } else {
        lemma_nat_text(n / 10);
        lemma_digit_char((n % 10) as int);
        let t = nat_text(n);
        assert(t.drop_last() == nat_text(n / 10));
        assert(t.last() == digit_char((n % 10) as int));
        assert(digits_value(t) == 10 * digits_value(t.drop_last()) + digit_value(t.last()));
        assert(10 * (n / 10) + n % 10 == n);
        assert forall|i: int| 0 <= i < t.len() implies is_digit(#[trigger] t[i]) by {
            if i < t.len() - 1 {
                assert(t[i] == nat_text(n / 10)[i]);
            }
        }
    }
}

/// The decimal text of an integer is not empty and starts with `-` or a digit.
pub proof fn lemma_int_text_start(n: int)
    ensures
        int_text(n).len() > 0,
        int_text(n)[0] == '-' || is_digit(int_text(n)[0]),
{
    if n >= 0 {
        lemma_nat_text(n as nat);
    }
}

/// The decimal text of every 64-bit integer parses back to that integer.
pub proof fn law_int_text_parses_back(n: i64)
    ensures
        parse_i64_spec(int_text(n as int)) == Some(n),
{
    if n < 0 {
        let m = (-(n as int)) as nat;
        lemma_nat_text(m);
        let s = int_text(n as int);
        assert(s.drop_first() =~= nat_text(m));
    } else {
        lemma_nat_text(n as nat);
        lemma_digit_char(0);
        let s = nat_text(n as nat);
        assert(is_digit(s[0]));
    }
}

} // verus!
