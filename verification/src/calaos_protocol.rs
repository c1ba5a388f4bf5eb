//! The Calaos UDP text protocol spoken by Wago controllers:
//! `WAGO INT <var> <value>` reports an input change and `CALAOS_DISCOVER`
//! asks for the server address. Trailing text after a request is ignored.

use vstd::prelude::*;

use crate::text::{
    all_digits, chars_of, digit_run_end, digits_value, is_digit, nat_to_decimal,
    lemma_nat_to_decimal_digits, parse_digit_run, parse_digits_u32, string_of,
};

verus! {

/// An input change reported by a Wago controller.
#[derive(Debug, Clone, Copy, PartialEq, Eq, Structural)]
pub struct WagoData {
    pub var: u32,
    pub value: u32,
}

/// A request received from a Wago controller.
#[derive(Debug, Clone, Copy, PartialEq, Eq, Structural)]
pub enum Request {
    WagoInt(WagoData),
    Discover,
}

/// A text that is no request; it holds the text that was refused.
#[derive(Debug, PartialEq)]
pub struct ParseError {
    pub input: String,
}

impl ParseError {
    /// A human readable description of the error.
    pub fn message(&self) -> (r: String)
        ensures
            r@ == "unrecognized request: "@ + self.input@,
    {
        let mut r = String::new();
        crate::text::append_str(&mut r, "unrecognized request: ");
        crate::text::append_str(&mut r, self.input.as_str());
        r
    }
}

pub open spec fn wago_int_tag() -> Seq<char> {
    "WAGO INT "@
}

pub open spec fn discover_tag() -> Seq<char> {
    "CALAOS_DISCOVER"@
}

/// The length of the run of digits that `s` starts with.
pub open spec fn digit_run_len(s: Seq<char>) -> nat
    decreases s.len(),
{
    if s.len() > 0 && is_digit(s[0]) {
        1 + digit_run_len(s.skip(1))
    } else {
        0
    }
}

/// `<digits>` at the start of `s`, read as a `u32`, and what follows it.
pub open spec fn number_prefix(s: Seq<char>) -> Option<(u32, Seq<char>)> {
    let k = digit_run_len(s) as int;
    match parse_digits_u32(s.take(k)) {
        Some(n) => Some((n, s.skip(k))),
        None => None,
    }
}

/// `WAGO INT <var> <value>` at the start of `s`: the numbers and the text
/// that follows them.
pub open spec fn parse_wago_int(s: Seq<char>) -> Option<(Seq<char>, WagoData)> {
    if s.len() >= 9 && s.take(9) == wago_int_tag() {
        match number_prefix(s.skip(9)) {
            Some((var, rest)) => if rest.len() > 0 && rest[0] == ' ' {
                match number_prefix(rest.skip(1)) {
                    Some((value, rest2)) => Some((rest2, WagoData { var, value })),
                    None => None,
                }
            } else {
                None
            },
            None => None,
        }
    } else {
        None
    }
}

/// `CALAOS_DISCOVER` at the start of `s`, and the text that follows it.
pub open spec fn parse_discover(s: Seq<char>) -> Option<Seq<char>> {
    if s.len() >= 15 && s.take(15) == discover_tag() {
        Some(s.skip(15))
    } else {
        None
    }
}

/// The request at the start of a text, and the text that follows it.
pub open spec fn parse_any(s: Seq<char>) -> Option<(Seq<char>, Request)> {
    match parse_wago_int(s) {
        Some((rest, d)) => Some((rest, Request::WagoInt(d))),
        None => match parse_discover(s) {
            Some(rest) => Some((rest, Request::Discover)),
            None => None,
        },
    }
}

/// The request that a text holds, if any.
pub open spec fn parse_request_spec(s: Seq<char>) -> Option<Request> {
    match parse_any(s) {
        Some((_, q)) => Some(q),
        None => None,
    }
}

proof fn lemma_digit_run_len(s: Seq<char>, k: int)
    requires
        0 <= k <= s.len(),
        all_digits(s.take(k)),
        k == s.len() || !is_digit(s[k]),
    ensures
        digit_run_len(s) == k,
    decreases k,
{
    if k > 0 {
        assert(s.take(k)[0] == s[0]);
        assert(is_digit(s[0]));
        let t = s.skip(1);
        assert forall|i: int| 0 <= i < k - 1 implies is_digit(#[trigger] t.take(k - 1)[i]) by {
            assert(t.take(k - 1)[i] == s.take(k)[i + 1]);
        }
        if k < s.len() {
            assert(t[k - 1] == s[k]);
        }
        lemma_digit_run_len(t, k - 1);
    } else {
        if s.len() > 0 {
            assert(!is_digit(s[0]));
        }
    }
}

fn starts_with(cs: &Vec<char>, start: usize, tag: &str) -> (r: bool)
    requires
        start <= cs@.len(),
    ensures
        r == (cs@.len() - start >= tag@.len() && cs@.subrange(
            start as int,
            start + tag@.len(),
        ) == tag@),
{
    let ts = chars_of(tag);
    if cs.len() - start < ts.len() {
        return false;
    }
    let n = cs.len();
    let mut i: usize = 0;
    while i < ts.len()
        invariant
            ts@ == tag@,
            n == cs@.len(),
            start <= cs@.len(),
            cs@.len() - start >= ts@.len(),
            i <= ts@.len(),
            forall|j: int| 0 <= j < i ==> cs@[start + j] == ts@[j],
        decreases ts@.len() - i,
    {
        if cs[start + i] != ts[i] {
            assert(cs@.subrange(start as int, start + tag@.len())[i as int] != tag@[i as int]);
            return false;
        }
        i = i + 1;
    }
    assert(cs@.subrange(start as int, start + tag@.len()) =~= tag@);
    true
}

/// Reads `<digits>` from `cs` at `start`; on success gives the number and
/// the position after the digits.
fn read_number(cs: &Vec<char>, start: usize) -> (r: Option<(u32, usize)>)
    requires
        start <= cs@.len(),
    ensures
        match number_prefix(cs@.skip(start as int)) {
            Some((n, rest)) => r matches Some((m, end)) && m == n && start <= end <= cs@.len()
                && rest == cs@.skip(end as int),
            None => r is None,
        },
{
    let end = digit_run_end(cs.as_slice(), start);
    let ghost t = cs@.skip(start as int);
    proof {
        assert(t.take(end - start) =~= cs@.subrange(start as int, end as int));
        lemma_digit_run_len(t, end - start);
        assert(t.skip(end - start) =~= cs@.skip(end as int));
    }
    match parse_digit_run(cs.as_slice(), start, end) {
        Some(n) => Some((n, end)),
        None => None,
    }
}

fn rest_from(cs: &Vec<char>, k: usize) -> (r: String)
    requires
        k <= cs@.len(),
    ensures
        r@ == cs@.skip(k as int),
{
    let mut rest: Vec<char> = Vec::new();
    let mut i = k;
    while i < cs.len()
        invariant
            k <= i <= cs@.len(),
            rest@ == cs@.subrange(k as int, i as int),
        decreases cs@.len() - i,
    {
        rest.push(cs[i]);
        i = i + 1;
        assert(rest@ =~= cs@.subrange(k as int, i as int));
    }
    assert(cs@.subrange(k as int, i as int) =~= cs@.skip(k as int));
    string_of(rest.as_slice())
}

fn wago_int_at(cs: &Vec<char>) -> (r: Option<(usize, WagoData)>)
    ensures
        match parse_wago_int(cs@) {
            Some((rest, d)) => r matches Some((end, e)) && e == d && end <= cs@.len() && rest
                == cs@.skip(end as int),
            None => r is None,
        },
{
    proof {
        reveal_strlit("WAGO INT ");
        assert(cs@.skip(0) =~= cs@);
    }
    if starts_with(cs, 0, "WAGO INT ") {
        assert(cs@.take(9) =~= cs@.subrange(0, 9));
        if let Some((var, p)) = read_number(cs, 9) {
            if p < cs.len() && cs[p] == ' ' {
                assert(cs@.skip(p as int).skip(1) =~= cs@.skip(p + 1));
                if let Some((value, end)) = read_number(cs, p + 1) {
                    return Some((end, WagoData { var, value }));
                }
            }
        }
        None
    } else {
        proof {
            if cs@.len() >= 9 {
                assert(cs@.take(9) =~= cs@.subrange(0, 9));
            }
        }
        None
    }
}

fn discover_at(cs: &Vec<char>) -> (r: Option<usize>)
    ensures
        match parse_discover(cs@) {
            Some(rest) => r == Some(15usize) && rest == cs@.skip(15),
            None => r is None,
        },
{
    proof {
        reveal_strlit("CALAOS_DISCOVER");
    }
    if starts_with(cs, 0, "CALAOS_DISCOVER") {
        assert(cs@.take(15) =~= cs@.subrange(0, 15));
        Some(15)
    } else {
        proof {
            if cs@.len() >= 15 {
                assert(cs@.take(15) =~= cs@.subrange(0, 15));
            }
        }
        None
    }
}

/// Reads `WAGO INT <var> <value>` at the start of `input`; gives the text
/// that follows and the numbers.
pub fn get_wago_int(input: &str) -> (r: Result<(String, WagoData), ParseError>)
    ensures
        match parse_wago_int(input@) {
            Some((rest, d)) => r matches Ok((t, e)) && t@ == rest && e == d,
            None => r matches Err(e) && e.input@ == input@,
        },
{
    let cs = chars_of(input);
    match wago_int_at(&cs) {
        Some((end, d)) => Ok((rest_from(&cs, end), d)),
        None => Err(ParseError { input: string_of(cs.as_slice()) }),
    }
}

/// Reads `CALAOS_DISCOVER` at the start of `input`; gives the text that follows.
pub fn get_discover(input: &str) -> (r: Result<String, ParseError>)
    ensures
        match parse_discover(input@) {
            Some(rest) => r matches Ok(t) && t@ == rest,
            None => r matches Err(e) && e.input@ == input@,
        },
{
    let cs = chars_of(input);
    match discover_at(&cs) {
        Some(end) => Ok(rest_from(&cs, end)),
        None => Err(ParseError { input: string_of(cs.as_slice()) }),
    }
}

/// Reads a request at the start of `input`: a `WAGO INT` report, else a
/// discovery request.
pub fn get_any(input: &str) -> (r: Result<(String, Request), ParseError>)
    ensures
        match parse_any(input@) {
            Some((rest, q)) => r matches Ok((t, p)) && t@ == rest && p == q,
            None => r matches Err(e) && e.input@ == input@,
        },
{
    let cs = chars_of(input);
    match wago_int_at(&cs) {
        Some((end, d)) => Ok((rest_from(&cs, end), Request::WagoInt(d))),
        None => match discover_at(&cs) {
            Some(end) => Ok((rest_from(&cs, end), Request::Discover)),
            None => Err(ParseError { input: string_of(cs.as_slice()) }),
        },
    }
}

/// Reads the request at the start of `req`; what follows it is ignored.
pub fn parse_request(req: &str) -> (r: Result<Request, ParseError>)
    ensures
        match parse_request_spec(req@) {
            Some(q) => r == Ok::<Request, ParseError>(q),
            None => r matches Err(e) && e.input@ == req@,
        },
{
    match get_any(req) {
        Ok((_, q)) => Ok(q),
        Err(e) => Err(e),
    }
}

/// A well-formed `WAGO INT` message is read back as the numbers it was made
/// of, whatever follows it as long as that does not start with a digit.
pub proof fn lemma_wago_int_message(var: u32, value: u32, tail: Seq<char>)
    requires
        tail.len() == 0 || !is_digit(tail[0]),
    ensures
        parse_request_spec(
            wago_int_tag() + nat_to_decimal(var as nat) + seq![' '] + nat_to_decimal(
                value as nat,
            ) + tail,
        ) == Some(Request::WagoInt(WagoData { var, value })),
{
    reveal_strlit("WAGO INT ");
    let a = nat_to_decimal(var as nat);
    let b = nat_to_decimal(value as nat);
    let s = wago_int_tag() + a + seq![' '] + b + tail;
    lemma_nat_to_decimal_digits(var as nat);
    lemma_nat_to_decimal_digits(value as nat);
    assert(s.take(9) =~= wago_int_tag());
    let s1 = s.skip(9);
    assert(s1 =~= a + (seq![' '] + b + tail));
    assert(s1.take(a.len() as int) =~= a);
    lemma_digit_run_len(s1, a.len() as int);
    let rest = s1.skip(a.len() as int);
    assert(rest =~= seq![' '] + b + tail);
    let s2 = rest.skip(1);
    assert(s2 =~= b + tail);
    assert(s2.take(b.len() as int) =~= b);
    if tail.len() > 0 {
        assert(s2[b.len() as int] == tail[0]);
    }
    lemma_digit_run_len(s2, b.len() as int);
}

/// A message starting with `CALAOS_DISCOVER` is a discovery request.
pub proof fn lemma_discover_message(tail: Seq<char>)
    ensures
        parse_request_spec(discover_tag() + tail) == Some(Request::Discover),
{
    reveal_strlit("WAGO INT ");
    reveal_strlit("CALAOS_DISCOVER");
    let s = discover_tag() + tail;
    assert(s.take(15) =~= discover_tag());
    assert(s[0] == 'C');
    assert(s.take(9)[0] != wago_int_tag()[0]);
}

} // verus!
