use vstd::prelude::*;
use vstd::string::StringExecFns;

use crate::error::Error;

verus! {

/// `char::is_whitespace`: the characters with the Unicode `White_Space` property.
pub open spec fn is_white_space(c: char) -> bool {
    let u = c as u32;
    (9 <= u <= 13) || u == 32 || u == 0x85 || u == 0xa0 || u == 0x1680 || (0x2000 <= u
        <= 0x200a) || u == 0x2028 || u == 0x2029 || u == 0x202f || u == 0x205f || u == 0x3000
}

/// First index at or after `i` that holds no white space (or the end).
pub open spec fn skip_white(s: Seq<char>, i: int) -> int
    decreases s.len() - i,
{
    if 0 <= i < s.len() && is_white_space(s[i]) {
        skip_white(s, i + 1)
    } else {
        i
    }
}

/// First index at or after `i` that holds white space (or the end).
pub open spec fn skip_word(s: Seq<char>, i: int) -> int
    decreases s.len() - i,
{
    if 0 <= i < s.len() && !is_white_space(s[i]) {
        skip_word(s, i + 1)
    } else {
        i
    }
}

/// The `n`-th maximal run of non-white-space characters of `s` that starts
/// at or after `i`, counting from 0 (`split_whitespace().nth(n)`).
pub open spec fn nth_word_from(s: Seq<char>, i: int, n: nat) -> Option<Seq<char>>
    decreases n,
{
    let a = skip_white(s, i);
    if a >= s.len() {
        None
    } else {
        let b = skip_word(s, a);
        if n == 0 {
            Some(s.subrange(a, b))
        } else {
            nth_word_from(s, b, (n - 1) as nat)
        }
    }
}

pub open spec fn nth_word(s: Seq<char>, n: nat) -> Option<Seq<char>> {
    nth_word_from(s, 0, n)
}

pub open spec fn is_digit(c: char) -> bool {
    48 <= (c as u32) <= 57
}

pub open spec fn digit_value(c: char) -> nat {
    ((c as u32) - 48) as nat
}

/// The number that a run of decimal digits spells.
pub open spec fn digits_value(d: Seq<char>) -> nat
    decreases d.len(),
{
    if d.len() == 0 {
        0
    } else {
        digits_value(d.drop_last()) * 10 + digit_value(d.last())
    }
}

pub open spec fn all_digits(d: Seq<char>) -> bool {
    forall|i: int| 0 <= i < d.len() ==> is_digit(#[trigger] d[i])
}

/// The digits of an unsigned number in text: a leading `+` is allowed when
/// digits follow it.
pub open spec fn unsigned_digits(w: Seq<char>) -> Seq<char> {
    if w.len() > 1 && w[0] == '+' {
        w.drop_first()
    } else {
        w
    }
}

/// `str::parse::<u16>`: an optional `+`, then one or more decimal digits
/// whose value fits in 16 bits.
pub open spec fn parse_u16(w: Seq<char>) -> Option<u16> {
    let d = unsigned_digits(w);
    if d.len() > 0 && all_digits(d) && digits_value(d) <= 65535 {
        Some(digits_value(d) as u16)
    } else {
        None
    }
}

/// An HTTP status code is a number from 100 to 999.
pub open spec fn is_status_code(code: u16) -> bool {
    100 <= code <= 999
}

/// The status that a failure message carries: its third word, read as a
/// number, when that is a valid HTTP status code.
pub open spec fn status_in_message(msg: Seq<char>) -> Option<u16> {
    match nth_word(msg, 2) {
        Some(w) => match parse_u16(w) {
            Some(c) => if is_status_code(c) {
                Some(c)
            } else {
                None
            },
            None => None,
        },
        None => None,
    }
}

pub fn is_white_space_char(c: char) -> (r: bool)
    ensures
        r == is_white_space(c),
{
    let u = c as u32;
    (9 <= u && u <= 13) || u == 32 || u == 0x85 || u == 0xa0 || u == 0x1680 || (0x2000 <= u && u
        <= 0x200a) || u == 0x2028 || u == 0x2029 || u == 0x202f || u == 0x205f || u == 0x3000
}

/// The characters of `s`, in order.
pub fn chars_of(s: &str) -> (r: Vec<char>)
    ensures
        r@ == s@,
{
    let mut r: Vec<char> = Vec::new();
    for c in it: s.chars()
        invariant
            r@ == it.seq().take(it.index() as int),
    {
        r.push(c);
    }
    r
}

fn skip_white_at(s: &Vec<char>, i: usize) -> (r: usize)
    requires
        i <= s.len(),
    ensures
        r == skip_white(s@, i as int),
        i <= r <= s.len(),
{
    let mut j = i;
    while j < s.len() && is_white_space_char(s[j])
        invariant
            i <= j <= s.len(),
            skip_white(s@, j as int) == skip_white(s@, i as int),
        decreases s.len() - j,
    {
        j = j + 1;
    }
    j
}

fn skip_word_at(s: &Vec<char>, i: usize) -> (r: usize)
    requires
        i <= s.len(),
    ensures
        r == skip_word(s@, i as int),
        i <= r <= s.len(),
{
    let mut j = i;
    while j < s.len() && !is_white_space_char(s[j])
        invariant
            i <= j <= s.len(),
            skip_word(s@, j as int) == skip_word(s@, i as int),
        decreases s.len() - j,
    {
        j = j + 1;
    }
    j
}

/// The `n`-th white-space separated word of `s`, counting from 0.
pub fn nth_word_of(s: &Vec<char>, n: usize) -> (r: Option<Vec<char>>)
    ensures
        match r {
            Some(w) => nth_word(s@, n as nat) == Some(w@),
            None => nth_word(s@, n as nat) is None,
        },
{
    let mut i: usize = 0;
    let mut k: usize = n;
    loop
        invariant
            i <= s.len(),
            nth_word_from(s@, i as int, k as nat) == nth_word(s@, n as nat),
        decreases k,
    {
        let a = skip_white_at(s, i);
        if a >= s.len() {
            return None;
        }
        let b = skip_word_at(s, a);
        if k == 0 {
            let mut w: Vec<char> = Vec::new();
            let mut j = a;
            while j < b
                invariant
                    a <= j <= b <= s.len(),
                    w@ == s@.subrange(a as int, j as int),
                decreases b - j,
            {
                w.push(s[j]);
                j = j + 1;
            }
            return Some(w);
        }
        i = b;
        k = k - 1;
    }
}

proof fn lemma_digits_value_prefix(d: Seq<char>, k: int)
    requires
        0 <= k <= d.len(),
    ensures
        digits_value(d.take(k)) <= digits_value(d),
    decreases d.len(),
{
    if k < d.len() {
        assert(d.drop_last().take(k) =~= d.take(k));
        lemma_digits_value_prefix(d.drop_last(), k);
    } else {
        assert(d.take(k) =~= d);
    }
}

/// Reads a decimal `u16` the way `str::parse::<u16>` does.
pub fn parse_u16_chars(w: &Vec<char>) -> (r: Option<u16>)
    ensures
        r == parse_u16(w@),
{
    let start: usize = if w.len() > 1 && w[0] == '+' {
        1
    } else {
        0
    };
    let ghost d = unsigned_digits(w@);
    assert(d =~= w@.skip(start as int));
    if start >= w.len() {
        return None;
    }
    let mut value: u32 = 0;
    let mut j = start;
    while j < w.len()
        invariant
            start <= j <= w.len(),
            d == unsigned_digits(w@),
            d =~= w@.skip(start as int),
            value <= 65535,
            value == digits_value(d.take(j - start)),
            all_digits(d.take(j - start)),
        decreases w.len() - j,
    {
        let c = w[j];
        let u = c as u32;
        if u < 48 || u > 57 {
            assert(!is_digit(d[j - start]));
            return None;
        }
        let next = value * 10 + (u - 48);
        assert(d.take(j - start + 1).drop_last() =~= d.take(j - start));
        assert(d.take(j - start + 1).last() == c);
        if next > 65535 {
            proof {
                lemma_digits_value_prefix(d, j - start + 1);
            }
            return None;
        }
        value = next;
        j = j + 1;
    }
    assert(d.take(j - start) =~= d);
    Some(value as u16)
}

pub open spec fn digit_char(d: nat) -> char {
    ((d + 48) as u32) as char
}

/// A number in decimal, without leading zeros.
pub open spec fn decimal(n: nat) -> Seq<char>
    decreases n,
{
    if n < 10 {
        seq![digit_char(n)]
    } else {
        decimal(n / 10).push(digit_char(n % 10))
    }
}

/// The registered reason phrase of an HTTP status code, where it has one.
pub uninterp spec fn canonical_reason_of(code: u16) -> Option<Seq<char>>;

pub open spec fn reason_or_unknown(reason: Option<Seq<char>>) -> Seq<char> {
    match reason {
        Some(r) => r,
        None => "<unknown status code>"@,
    }
}

/// How a status code is written: `503 Service Unavailable`.
pub open spec fn status_text(code: u16) -> Seq<char> {
    decimal(code as nat) + seq![' '] + reason_or_unknown(canonical_reason_of(code))
}

/// The message of a failed response: `Request failed: <status> - <body>`.
pub open spec fn failure_message(code: u16, body: Seq<char>) -> Seq<char> {
    "Request failed: "@ + status_text(code) + " - "@ + body
}

/// The status carried by an error: only an `Api` error carries one.
pub open spec fn status_of_error(e: Error) -> Option<u16> {
    match e {
        Error::Api(msg) => status_in_message(msg@),
        _ => None,
    }
}

/// The result of a response with this status and body: the body on 2xx,
/// otherwise an `Api` error that names the status.
pub open spec fn response_outcome_spec(code: u16, body: Seq<char>, r: Result<String, Error>) -> bool {
    if 200 <= code <= 299 {
        r matches Ok(b) && b@ == body
    } else {
        r matches Err(Error::Api(m)) && m@ == failure_message(code, body)
    }
}

/// Relies on `http::StatusCode::from_u16`, which accepts exactly the numbers
/// from 100 to 999.
#[verifier::external_body]
fn status_code_is_valid(code: u16) -> (r: bool)
    ensures
        r == is_status_code(code),
{
    http::StatusCode::from_u16(code).is_ok()
}

/// Relies on `http`'s `Display` for `StatusCode`: the number in decimal, a
/// space, then `canonical_reason()` or `<unknown status code>`.
#[verifier::external_body]
fn status_code_text(code: u16) -> (r: String)
    requires
        is_status_code(code),
    ensures
        r@ == decimal(code as nat) + seq![' '] + reason_or_unknown(canonical_reason_of(code)),
{
    match http::StatusCode::from_u16(code) {
        Ok(status) => status.to_string(),
        Err(_) => String::new(),
    }
}

/// The status code that an error carries, if any: the third word of an
/// `Api` error's message, when it reads as a valid HTTP status code.
pub fn get_status_code(error: &Error) -> (r: Option<u16>)
    ensures
        r == status_of_error(*error),
{
    match error {
        Error::Api(msg) => {
            let chars = chars_of(msg.as_str());
            match nth_word_of(&chars, 2) {
                Some(w) => match parse_u16_chars(&w) {
                    Some(code) => if status_code_is_valid(code) {
                        Some(code)
                    } else {
                        None
                    },
                    None => None,
                },
                None => None,
            }
        },
        _ => None,
    }
}

/// Sorts a response by its status: a 2xx response yields its body, any other
/// an `Api` error whose message names the status and holds the body.
pub fn response_outcome(status: u16, body: String) -> (r: Result<String, Error>)
    requires
        is_status_code(status),
    ensures
        response_outcome_spec(status, body@, r),
{
    if 200 <= status && status <= 299 {
        Ok(body)
    } else {
        let msg = String::from_str("Request failed: ");
        let msg = msg.concat(status_code_text(status).as_str());
        let msg = msg.concat(" - ");
        let msg = msg.concat(body.as_str());
        Err(Error::Api(msg))
    }
}

} // verus!
