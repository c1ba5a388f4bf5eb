//! Character-level helpers: decimal numbers in text form, and building
//! strings out of characters.

use vstd::prelude::*;

verus! {

/// An ASCII decimal digit.
pub open spec fn is_digit(c: char) -> bool {
    '0' <= c && c <= '9'
}

pub open spec fn digit_value(c: char) -> int {
    (c as int) - ('0' as int)
}

pub open spec fn all_digits(s: Seq<char>) -> bool {
    forall|i: int| 0 <= i < s.len() ==> is_digit(#[trigger] s[i])
}

/// The number that a run of decimal digits denotes (leading zeros allowed).
pub open spec fn digits_value(s: Seq<char>) -> nat
    decreases s.len(),
{
    if s.len() == 0 {
        0
    } else {
        (digits_value(s.drop_last()) * 10 + digit_value(s.last())) as nat
    }
}

/// The character of a digit value `0..=9`.
pub open spec fn digit_char(d: nat) -> char {
    ((d + ('0' as int)) as u32) as char
}

/// The canonical decimal form of a natural number: no leading zero, "0" for zero.
pub open spec fn nat_to_decimal(n: nat) -> Seq<char>
    decreases n,
{
    if n < 10 {
        seq![digit_char(n)]
    } else {
        nat_to_decimal(n / 10).push(digit_char(n % 10))
    }
}

/// The canonical decimal form of an integer: a leading '-' for negative numbers.
pub open spec fn int_to_decimal(i: int) -> Seq<char> {
    if i < 0 {
        seq!['-'] + nat_to_decimal((-i) as nat)
    } else {
        nat_to_decimal(i as nat)
    }
}

/// What `str::parse::<u32>` gives back for a run of digits only: a non-empty
/// run whose value fits in a `u32`.
pub open spec fn parse_digits_u32(s: Seq<char>) -> Option<u32> {
    if s.len() > 0 && all_digits(s) && digits_value(s) <= u32::MAX {
        Some(digits_value(s) as u32)
    } else {
        None
    }
}

/// What `str::parse::<i32>` gives back: an optional sign ('+' or '-')
/// followed by at least one digit, the value fitting in an `i32`.
pub open spec fn parse_i32_spec(s: Seq<char>) -> Option<i32> {
    let neg = s.len() > 0 && s[0] == '-';
    let signed = s.len() > 0 && (s[0] == '-' || s[0] == '+');
    let body = if signed { s.skip(1) } else { s };
    let v: int = if neg { -digits_value(body) } else { digits_value(body) as int };
    if body.len() > 0 && all_digits(body) && i32::MIN <= v && v <= i32::MAX {
        Some(v as i32)
    } else {
        None
    }
}

pub proof fn lemma_digits_value_push(s: Seq<char>, c: char)
    ensures
        digits_value(s.push(c)) == digits_value(s) * 10 + digit_value(c) || digit_value(c) < 0,
        is_digit(c) ==> digits_value(s.push(c)) == digits_value(s) * 10 + digit_value(c),
{
    assert(s.push(c).drop_last() =~= s);
}

/// Appending digits never makes the value smaller.
pub proof fn lemma_digits_value_prefix(s: Seq<char>, k: int)
    requires
        all_digits(s),
        0 <= k <= s.len(),
    ensures
        digits_value(s.take(k)) <= digits_value(s),
    decreases s.len() - k,
{
    if k < s.len() {
        lemma_digits_value_prefix(s, k + 1);
        assert(s.take(k + 1) =~= s.take(k).push(s[k]));
        lemma_digits_value_push(s.take(k), s[k]);
    } else {
        assert(s.take(k) =~= s);
    }
}

pub proof fn lemma_nat_to_decimal_digits(n: nat)
    ensures
        nat_to_decimal(n).len() > 0,
        all_digits(nat_to_decimal(n)),
        digits_value(nat_to_decimal(n)) == n,
        nat_to_decimal(n)[0] != '0' || n == 0,
    decreases n,
{
    if n < 10 {
        assert(digit_char(n) as int == n + ('0' as int));
        let s = nat_to_decimal(n);
        assert(s.drop_last() =~= Seq::<char>::empty());
        assert(s.last() == digit_char(n));
        assert(digits_value(s.drop_last()) == 0);
        assert(digits_value(s) == digit_value(digit_char(n)));
    } else {
        lemma_nat_to_decimal_digits(n / 10);
        let p = nat_to_decimal(n / 10);
        assert(digit_char(n % 10) as int == n % 10 + ('0' as int));
        lemma_digits_value_push(p, digit_char(n % 10));
        assert(p.push(digit_char(n % 10))[0] == p[0]);
    }
}

/// A run of digits with no leading zero is the canonical form of its value.
pub proof fn lemma_decimal_of_digits(s: Seq<char>)
    requires
        s.len() > 0,
        all_digits(s),
        s[0] != '0' || s.len() == 1,
    ensures
        nat_to_decimal(digits_value(s)) == s,
    decreases s.len(),
{
    if s.len() == 1 {
        assert(s.drop_last() =~= Seq::<char>::empty());
        assert(digits_value(s.drop_last()) == 0);
        assert(digits_value(s) == digit_value(s[0]));
        assert(is_digit(s[0]));
        let c = s[0];
        assert(digit_char(digit_value(c) as nat) == c) by {
            assert((((c as int) - ('0' as int) + ('0' as int)) as u32) as char == c);
        }
        assert(nat_to_decimal(digits_value(s)) =~= s);
    } else {
        let p = s.drop_last();
        assert(p[0] == s[0]);
        lemma_decimal_of_digits(p);
        lemma_nat_to_decimal_digits(digits_value(p));
        assert(digits_value(p) > 0) by {
            lemma_leading_nonzero_positive(p);
        }
        let v = digits_value(s);
        assert(v == digits_value(p) * 10 + digit_value(s.last()));
        assert(v / 10 == digits_value(p));
        assert(v % 10 == digit_value(s.last()));
        assert(digit_char((v % 10) as nat) == s.last());
        assert(nat_to_decimal(v) =~= p.push(s.last()));
        assert(p.push(s.last()) =~= s);
    }
}

proof fn lemma_leading_nonzero_positive(s: Seq<char>)
    requires
        s.len() > 0,
        all_digits(s),
        s[0] != '0',
    ensures
        digits_value(s) > 0,
    decreases s.len(),
{
    if s.len() > 1 {
        let p = s.drop_last();
        assert(p[0] == s[0]);
        lemma_leading_nonzero_positive(p);
    }
}

/// std's `String::push`: claimed to leave the text with `c` appended and
/// nothing else changed.
#[verifier::external_body]
pub(crate) fn push_char(s: &mut String, c: char)
    ensures
        final(s)@ == old(s)@.push(c),
{
    s.push(c)
}

/// The characters of a string slice, in order.
pub fn chars_of(s: &str) -> (r: Vec<char>)
    ensures
        r@ == s@,
{
    let mut r: Vec<char> = Vec::new();
    for c in it: s.chars()
        invariant
            r@ == it.seq().take(it.index() as int),
            it.seq() == s@,
    {
        r.push(c);
    }
    r
}

/// A string made of the given characters.
pub fn string_of(cs: &[char]) -> (r: String)
    ensures
        r@ == cs@,
{
    let mut r = String::new();
    let mut i: usize = 0;
    while i < cs.len()
        invariant
            i <= cs@.len(),
            r@ == cs@.take(i as int),
        decreases cs@.len() - i,
    {
        push_char(&mut r, cs[i]);
        i = i + 1;
        assert(r@ =~= cs@.take(i as int));
    }
    assert(cs@.take(cs@.len() as int) =~= cs@);
    r
}

/// Appends the characters of `t` to `s`.
pub fn append_str(s: &mut String, t: &str)
    ensures
        final(s)@ == old(s)@ + t@,
{
    let cs = chars_of(t);
    let mut i: usize = 0;
    while i < cs.len()
        invariant
            i <= cs@.len(),
            cs@ == t@,
            s@ == old(s)@ + cs@.take(i as int),
        decreases cs@.len() - i,
    {
        push_char(s, cs[i]);
        i = i + 1;
        assert(s@ =~= old(s)@ + cs@.take(i as int));
    }
    assert(cs@.take(cs@.len() as int) =~= cs@);
}

fn digit_to_char(d: u64) -> (c: char)
    requires
        d < 10,
    ensures
        c == digit_char(d as nat),
{
    match d {
        0 => '0',
        1 => '1',
        2 => '2',
        3 => '3',
        4 => '4',
        5 => '5',
        6 => '6',
        7 => '7',
        8 => '8',
        _ => '9',
    }
}

/// Appends the canonical decimal form of `n` to `s`.
pub fn append_decimal(s: &mut String, n: u64)
    ensures
        final(s)@ == old(s)@ + nat_to_decimal(n as nat),
    decreases n,
{
    if n < 10 {
        push_char(s, digit_to_char(n));
        assert(old(s)@.push(digit_char(n as nat)) =~= old(s)@ + nat_to_decimal(n as nat));
    } else {
        append_decimal(s, n / 10);
        push_char(s, digit_to_char(n % 10));
        assert(s@ =~= old(s)@ + nat_to_decimal(n as nat));
    }
}

/// The canonical decimal form of a `u32`.
pub fn u32_to_decimal(n: u32) -> (r: String)
    ensures
        r@ == nat_to_decimal(n as nat),
{
    let mut r = String::new();
    append_decimal(&mut r, n as u64);
    assert(r@ =~= nat_to_decimal(n as nat));
    r
}

/// The canonical decimal form of an `i32` (`i32::to_string`).
pub fn i32_to_decimal(i: i32) -> (r: String)
    ensures
        r@ == int_to_decimal(i as int),
{
    let mut r = String::new();
    if i < 0 {
        push_char(&mut r, '-');
        let m: i64 = -(i as i64);
        append_decimal(&mut r, m as u64);
        assert(r@ =~= int_to_decimal(i as int));
    } else {
        append_decimal(&mut r, i as u64);
        assert(r@ =~= int_to_decimal(i as int));
    }
    r
}

/// Reads the longest run of digits of `cs` starting at `start`; returns its end.
pub fn digit_run_end(cs: &[char], start: usize) -> (end: usize)
    requires
        start <= cs@.len(),
    ensures
        start <= end <= cs@.len(),
        all_digits(cs@.subrange(start as int, end as int)),
        end == cs@.len() || !is_digit(cs@[end as int]),
{
    let mut end = start;
    while end < cs.len() && '0' <= cs[end] && cs[end] <= '9'
        invariant
            start <= end <= cs@.len(),
            all_digits(cs@.subrange(start as int, end as int)),
        decreases cs@.len() - end,
    {
        end = end + 1;
        assert forall|i: int| 0 <= i < end - start implies is_digit(
            #[trigger] cs@.subrange(start as int, end as int)[i],
        ) by {
            if i < end - 1 - start {
                assert(cs@.subrange(start as int, end as int)[i] == cs@.subrange(
                    start as int,
                    end - 1,
                )[i]);
            }
        }
    }
    end
}

/// The value of the digits `cs[start..end]`, if they are non-empty and the
/// value fits in a `u32` (`str::parse::<u32>` on a run of digits).
pub fn parse_digit_run(cs: &[char], start: usize, end: usize) -> (r: Option<u32>)
    requires
        start <= end <= cs@.len(),
        all_digits(cs@.subrange(start as int, end as int)),
    ensures
        r == parse_digits_u32(cs@.subrange(start as int, end as int)),
{
    let ghost s = cs@.subrange(start as int, end as int);
    if start == end {
        return None;
    }
    let mut acc: u64 = 0;
    let mut i = start;
    while i < end
        invariant
            start <= i <= end <= cs@.len(),
            s == cs@.subrange(start as int, end as int),
            all_digits(s),
            acc == digits_value(s.take(i - start)),
            acc <= u32::MAX,
        decreases end - i,
    {
        let c = cs[i];
        assert(c == s[i - start]);
        assert(is_digit(c));
        let d = (c as u32 - '0' as u32) as u64;
        proof {
            assert(s.take(i - start + 1) =~= s.take(i - start).push(c));
            lemma_digits_value_push(s.take(i - start), c);
        }
        acc = acc * 10 + d;
        i = i + 1;
        if acc > u32::MAX as u64 {
            proof {
                lemma_digits_value_prefix(s, i - start);
            }
            return None;
        }
    }
    assert(s.take(end - start) =~= s);
    Some(acc as u32)
}

/// `str::parse::<i32>`: an optional sign followed by at least one digit.
pub fn parse_i32(cs: &[char]) -> (r: Option<i32>)
    ensures
        r == parse_i32_spec(cs@),
{
    let neg = cs.len() > 0 && cs[0] == '-';
    let signed = cs.len() > 0 && (cs[0] == '-' || cs[0] == '+');
    let start: usize = if signed { 1 } else { 0 };
    let ghost body = cs@.subrange(start as int, cs@.len() as int);
    assert(body =~= (if signed { cs@.skip(1) } else { cs@ }));
    let end = digit_run_end(cs, start);
    if end != cs.len() || start == end {
        proof {
            if end != cs.len() {
                assert(!is_digit(body[end - start]));
                assert(!all_digits(body));
            } else {
                assert(body.len() == 0);
            }
        }
        return None;
    }
    let ghost bound: int = if neg { 2147483648 } else { 2147483647 };
    let mut acc: u64 = 0;
    let mut i = start;
    while i < end
        invariant
            start <= i <= end == cs@.len(),
            body == cs@.subrange(start as int, end as int),
            all_digits(body),
            acc == digits_value(body.take(i - start)),
            acc <= bound,
            bound == (if neg { 2147483648int } else { 2147483647int }),
            neg == (cs@.len() > 0 && cs@[0] == '-'),
            signed == (cs@.len() > 0 && (cs@[0] == '-' || cs@[0] == '+')),
            body == (if signed { cs@.skip(1) } else { cs@ }),
        decreases end - i,
    {
        let c = cs[i];
        assert(c == body[i - start]);
        let d = (c as u32 - '0' as u32) as u64;
        proof {
            assert(body.take(i - start + 1) =~= body.take(i - start).push(c));
            lemma_digits_value_push(body.take(i - start), c);
        }
        acc = acc * 10 + d;
        i = i + 1;
        let limit: u64 = if neg { 2147483648 } else { 2147483647 };
        if acc > limit {
            proof {
                lemma_digits_value_prefix(body, i - start);
                assert(digits_value(body) > bound);
            }
            return None;
        }
    }
    assert(body.take(end - start) =~= body);
    if neg {
        Some((-(acc as i64)) as i32)
    } else {
        Some(acc as i32)
    }
}

/// What `str::parse::<u16>` gives back: an optional '+' followed by at
/// least one digit, the value fitting in a `u16`.
pub open spec fn parse_u16_spec(s: Seq<char>) -> Option<u16> {
    let body = if s.len() > 0 && s[0] == '+' {
        s.skip(1)
    } else {
        s
    };
    if body.len() > 0 && all_digits(body) && digits_value(body) <= 0xffff {
        Some(digits_value(body) as u16)
    } else {
        None
    }
}

/// `str::parse::<u16>`.
pub fn parse_u16(cs: &[char]) -> (r: Option<u16>)
    ensures
        r == parse_u16_spec(cs@),
{
    let start: usize = if cs.len() > 0 && cs[0] == '+' {
        1
    } else {
        0
    };
    let ghost body = cs@.subrange(start as int, cs@.len() as int);
    assert(body =~= (if cs@.len() > 0 && cs@[0] == '+' {
        cs@.skip(1)
    } else {
        cs@
    }));
    let end = digit_run_end(cs, start);
    if end != cs.len() || start == end {
        proof {
            if end != cs.len() {
                assert(!is_digit(body[end - start]));
                assert(!all_digits(body));
            }
        }
        return None;
    }
    match parse_digit_run(cs, start, end) {
        Some(n) => if n <= 0xffff {
            Some(n as u16)
        } else {
            None
        },
        None => None,
    }
}

/// Whether two strings hold the same characters.
pub fn str_eq(a: &str, b: &str) -> (r: bool)
    ensures
        r == (a@ == b@),
{
    let x = chars_of(a);
    let y = chars_of(b);
    if x.len() != y.len() {
        return false;
    }
    let mut i: usize = 0;
    while i < x.len()
        invariant
            x@ == a@,
            y@ == b@,
            x@.len() == y@.len(),
            i <= x@.len(),
            forall|j: int| 0 <= j < i ==> x@[j] == y@[j],
        decreases x@.len() - i,
    {
        if x[i] != y[i] {
            return false;
        }
        i = i + 1;
    }
    assert(x@ =~= y@);
    true
}

} // verus!
