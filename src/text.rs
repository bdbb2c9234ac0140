//! Text helpers: the few std string operations the library relies on,
//! with what their documentation promises.

use vstd::prelude::*;
use vstd::string::*;

verus! {

/// The decimal digit `d` as a character.
pub open spec fn digit_char(d: nat) -> char {
    ((d + 48) as u8) as char
}

/// The shortest decimal representation of `v`.
pub open spec fn decimal_chars(v: nat) -> Seq<char>
    decreases v,
{
    if v < 10 {
        seq![digit_char(v)]
    } else {
        decimal_chars(v / 10) + seq![digit_char(v % 10)]
    }
}

/// The value of a nonempty run of ASCII decimal digits, where every
/// character is one.
pub open spec fn digits_value(s: Seq<char>) -> Option<nat>
    decreases s.len(),
{
    if s.len() == 0 {
        None
    } else {
        let c = s.last();
        if '0' <= c <= '9' {
            let d = (c as nat - 48) as nat;
            if s.len() == 1 {
                Some(d)
            } else {
                match digits_value(s.drop_last()) {
                    Some(v) => Some(10 * v + d),
                    None => None,
                }
            }
        } else {
            None
        }
    }
}

/// What `u64::from_str` accepts: an optional `+` and decimal digits,
/// with a value that fits.
pub open spec fn u64_of_decimal(s: Seq<char>) -> Option<u64> {
    let digits = if s.len() > 0 && s[0] == '+' {
        s.subrange(1, s.len() as int)
    } else {
        s
    };
    match digits_value(digits) {
        Some(v) => if v <= u64::MAX {
            Some(v as u64)
        } else {
            None
        },
        None => None,
    }
}

/// The value of a hexadecimal digit, either case.
pub open spec fn hex_digit_value(c: char) -> Option<nat> {
    if '0' <= c <= '9' {
        Some((c as nat - 48) as nat)
    } else if 'a' <= c <= 'f' {
        Some((c as nat - 87) as nat)
    } else if 'A' <= c <= 'F' {
        Some((c as nat - 55) as nat)
    } else {
        None
    }
}

/// The value of a nonempty run of hexadecimal digits.
pub open spec fn hex_value(s: Seq<char>) -> Option<nat>
    decreases s.len(),
{
    if s.len() == 0 {
        None
    } else {
        match hex_digit_value(s.last()) {
            Some(d) => if s.len() == 1 {
                Some(d)
            } else {
                match hex_value(s.drop_last()) {
                    Some(v) => Some(16 * v + d),
                    None => None,
                }
            },
            None => None,
        }
    }
}

/// What `u64::from_str_radix(s, 16)` accepts: an optional `+` and
/// hexadecimal digits, with a value that fits.
pub open spec fn u64_of_hex(s: Seq<char>) -> Option<u64> {
    let digits = if s.len() > 0 && s[0] == '+' {
        s.subrange(1, s.len() as int)
    } else {
        s
    };
    match hex_value(digits) {
        Some(v) => if v <= u64::MAX {
            Some(v as u64)
        } else {
            None
        },
        None => None,
    }
}

/// The upper-case hexadecimal digit for `d < 16`.
pub open spec fn hex_char(d: nat) -> char {
    if d < 10 {
        ((d + 48) as u8) as char
    } else {
        ((d + 55) as u8) as char
    }
}

/// The upper-case hexadecimal digits of `v`, at least `width` of them.
pub open spec fn hex_chars(v: nat, width: nat) -> Seq<char>
    decreases v + width,
{
    if v < 16 && width <= 1 {
        seq![hex_char(v)]
    } else {
        hex_chars(v / 16, if width > 0 {
            (width - 1) as nat
        } else {
            0
        }) + seq![hex_char(v % 16)]
    }
}

/// The position of the first `c` in `s`, if any.
pub open spec fn first_index_of(s: Seq<char>, c: char) -> Option<int> {
    if exists|i: int| 0 <= i < s.len() && s[i] == c {
        let i = choose|i: int|
            0 <= i < s.len() && s[i] == c && forall|j: int| 0 <= j < i ==> s[j] != c;
        Some(i)
    } else {
        None
    }
}

/// The rest of `s` where it starts with `prefix`.
pub open spec fn rest_after(s: Seq<char>, prefix: Seq<char>) -> Option<Seq<char>> {
    if prefix.len() <= s.len() && s.subrange(0, prefix.len() as int) == prefix {
        Some(s.subrange(prefix.len() as int, s.len() as int))
    } else {
        None
    }
}

/// Relies on `str::strip_prefix`: the rest of `s` where it starts with `prefix`.
#[verifier::external_body]
pub(crate) fn strip_prefix(s: &str, prefix: &str) -> (r: Option<String>)
    ensures
        match rest_after(s@, prefix@) {
            Some(rest) => r is Some && r->Some_0@ == rest,
            None => r is None,
        },
{
    s.strip_prefix(prefix).map(str::to_owned)
}

/// Relies on `str::ends_with` with a string pattern.
#[verifier::external_body]
pub(crate) fn ends_with(s: &str, suffix: &str) -> (r: bool)
    ensures
        r == (suffix@.len() <= s@.len() && s@.subrange(s@.len() - suffix@.len(), s@.len() as int)
            == suffix@),
{
    s.ends_with(suffix)
}

/// Whether `s` is exactly `word`.
pub fn same_text(s: &str, word: &str) -> (r: bool)
    ensures
        r <==> s@ == word@,
{
    match strip_prefix(s, word) {
        Some(rest) => {
            if rest.as_str().is_empty() {
                assert(s@ =~= word@);
                true
            } else {
                assert(rest@.len() > 0);
                assert(s@.len() > word@.len());
                false
            }
        },
        None => {
            proof {
                if s@ == word@ {
                    assert(s@.subrange(0, word@.len() as int) =~= s@);
                }
            }
            false
        },
    }
}

/// The position of the first occurrence of `pat` in `s`, if any.
pub open spec fn first_match_of(s: Seq<char>, pat: Seq<char>) -> Option<int> {
    if exists|i: int| 0 <= i && i + pat.len() <= s.len() && #[trigger] s.subrange(i, i + pat.len()) == pat {
        let i = choose|i: int|
            0 <= i && i + pat.len() <= s.len() && #[trigger] s.subrange(i, i + pat.len()) == pat && forall|j: int|
                0 <= j < i ==> #[trigger] s.subrange(j, j + pat.len()) != pat;
        Some(i)
    } else {
        None
    }
}

/// Relies on `str::split_once` with a string pattern: the parts before and
/// after the first occurrence of `pat`.
#[verifier::external_body]
pub(crate) fn split_once_str(s: &str, pat: &str) -> (r: Option<(String, String)>)
    ensures
        match first_match_of(s@, pat@) {
            Some(i) => r is Some && r->Some_0.0@ == s@.subrange(0, i) && r->Some_0.1@ == s@.subrange(
                i + pat@.len(),
                s@.len() as int,
            ),
            None => r is None,
        },
{
    s.split_once(pat).map(|(a, b)| (a.to_owned(), b.to_owned()))
}

/// Relies on `str::split_once` with a character: the parts before and after
/// the first occurrence of `c`.
#[verifier::external_body]
pub(crate) fn split_once(s: &str, c: char) -> (r: Option<(String, String)>)
    ensures
        match first_index_of(s@, c) {
            Some(i) => r is Some && r->Some_0.0@ == s@.subrange(0, i) && r->Some_0.1@ == s@.subrange(
                i + 1,
                s@.len() as int,
            ),
            None => r is None,
        },
{
    s.split_once(c).map(|(a, b)| (a.to_owned(), b.to_owned()))
}

/// Relies on `u64::from_str` (`str::parse`): decimal digits after an optional `+`.
#[verifier::external_body]
pub(crate) fn parse_u64(s: &str) -> (r: Option<u64>)
    ensures
        r == u64_of_decimal(s@),
{
    s.parse::<u64>().ok()
}

/// Relies on `u64::from_str_radix` with radix 16.
#[verifier::external_body]
pub(crate) fn parse_hex_u64(s: &str) -> (r: Option<u64>)
    ensures
        r == u64_of_hex(s@),
{
    u64::from_str_radix(s, 16).ok()
}

/// Relies on `format!("{}")` of a `u64`: its shortest decimal digits.
#[verifier::external_body]
pub(crate) fn decimal_string(v: u64) -> (r: String)
    ensures
        r@ == decimal_chars(v as nat),
{
    format!("{}", v)
}

/// Relies on `format!("{:08X}")` of a `u64`: upper-case hexadecimal digits,
/// padded with zeros to eight.
#[verifier::external_body]
pub(crate) fn hex8_string(v: u64) -> (r: String)
    ensures
        r@ == hex_chars(v as nat, 8),
{
    format!("{:08X}", v)
}

/// `a` followed by `b`.
pub fn concat(a: String, b: &str) -> (r: String)
    ensures
        r@ == a@ + b@,
{
    a.concat(b)
}

} // verus!
