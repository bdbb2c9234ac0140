//! Time spans written as a sum of numbers with units (`1h 30min`, `2 days`).

use vstd::prelude::*;
use vstd::string::StringSliceAdditionalSpecFns;


verus! {

/// A time span: a count for each unit.
#[derive(Debug, Clone, Copy, PartialEq, Eq, Structural, Default)]
pub struct TimeSpan {
    pub nsec: u64,
    pub usec: u64,
    pub msec: u64,
    pub seconds: u64,
    pub minutes: u64,
    pub hours: u64,
    pub days: u64,
    pub weeks: u64,
    pub months: u64,
    pub years: u64,
}

/// Error raised while parsing a time span.
#[derive(Debug, Clone, Copy, PartialEq, Eq, Structural)]
pub enum TimeSpanError {
    /// Text that is not a sum of numbers with units.
    Syntax,
    /// A count that does not fit.
    Overflow,
}

pub open spec fn zero_span() -> TimeSpan {
    TimeSpan {
        nsec: 0,
        usec: 0,
        msec: 0,
        seconds: 0,
        minutes: 0,
        hours: 0,
        days: 0,
        weeks: 0,
        months: 0,
        years: 0,
    }
}

pub open spec fn is_space(c: u8) -> bool {
    c == 32 || c == 9
}

pub open spec fn is_digit(c: u8) -> bool {
    48 <= c <= 57
}

pub open spec fn is_alpha(c: u8) -> bool {
    (65 <= c <= 90) || (97 <= c <= 122)
}

/// The first position from `p` on that is not a space or tab.
pub open spec fn skip_spaces(b: Seq<u8>, p: int) -> int
    decreases b.len() - p,
{
    if p < b.len() && is_space(b[p]) {
        skip_spaces(b, p + 1)
    } else {
        p
    }
}

/// The end of the run of digits at `p`.
pub open spec fn digits_end(b: Seq<u8>, p: int) -> int
    decreases b.len() - p,
{
    if p < b.len() && is_digit(b[p]) {
        digits_end(b, p + 1)
    } else {
        p
    }
}

/// The end of the run of letters at `p`; `µ` (bytes C2 B5) counts as one.
pub open spec fn letters_end(b: Seq<u8>, p: int) -> int
    decreases b.len() - p,
{
    if p < b.len() && is_alpha(b[p]) {
        letters_end(b, p + 1)
    } else if p + 1 < b.len() && b[p] == 0xC2 && b[p + 1] == 0xB5 {
        letters_end(b, p + 2)
    } else {
        p
    }
}

/// The value of a run of decimal digits, where it fits in 64 bits.
pub open spec fn decimal_value(b: Seq<u8>) -> Option<u64>
    decreases b.len(),
{
    if b.len() == 0 {
        Some(0)
    } else {
        match decimal_value(b.drop_last()) {
            Some(v) => {
                let x = 10 * v + (b.last() - 48);
                if x <= u64::MAX {
                    Some(x as u64)
                } else {
                    None
                }
            },
            None => None,
        }
    }
}

/// The field a unit name stands for: 0 nsec, 1 usec, 2 msec, 3 seconds,
/// 4 minutes, 5 hours, 6 days, 7 weeks, 8 months, 9 years.
pub open spec fn unit_field(u: Seq<u8>) -> Option<nat> {
    if u == seq![115u8, 101, 99, 111, 110, 100, 115] || u == seq![115u8, 101, 99, 111, 110, 100]
        || u == seq![115u8, 101, 99] || u == seq![115u8] {
        Some(3)
    } else if u == seq![109u8, 115, 101, 99] || u == seq![109u8, 115] {
        Some(2)
    } else if u == seq![117u8, 115, 101, 99] || u == seq![117u8, 115] || u == seq![0xC2u8, 0xB5, 115] {
        Some(1)
    } else if u == seq![110u8, 115, 101, 99] || u == seq![110u8, 115] {
        Some(0)
    } else if u == seq![109u8, 105, 110, 117, 116, 101, 115] || u == seq![109u8, 105, 110, 117, 116, 101]
        || u == seq![109u8, 105, 110] || u == seq![109u8] {
        Some(4)
    } else if u == seq![104u8, 111, 117, 114, 115] || u == seq![104u8, 111, 117, 114] || u == seq![104u8, 114]
        || u == seq![104u8] {
        Some(5)
    } else if u == seq![100u8, 97, 121, 115] || u == seq![100u8, 97, 121] || u == seq![100u8] {
        Some(6)
    } else if u == seq![119u8, 101, 101, 107, 115] || u == seq![119u8, 101, 101, 107] || u == seq![119u8] {
        Some(7)
    } else if u == seq![109u8, 111, 110, 116, 104, 115] || u == seq![109u8, 111, 110, 116, 104] || u == seq![77u8] {
        Some(8)
    } else if u == seq![121u8, 101, 97, 114, 115] || u == seq![121u8, 101, 97, 114] || u == seq![121u8] {
        Some(9)
    } else {
        None
    }
}

/// `ts` with `num` added to field `k`, where the sum fits.
pub open spec fn add_field(ts: TimeSpan, k: nat, num: u64) -> Option<TimeSpan> {
    let f = |x: u64| if x + num <= u64::MAX { Some((x + num) as u64) } else { None };
    if k == 0 {
        match f(ts.nsec) { Some(v) => Some(TimeSpan { nsec: v, ..ts }), None => None }
    } else if k == 1 {
        match f(ts.usec) { Some(v) => Some(TimeSpan { usec: v, ..ts }), None => None }
    } else if k == 2 {
        match f(ts.msec) { Some(v) => Some(TimeSpan { msec: v, ..ts }), None => None }
    } else if k == 3 {
        match f(ts.seconds) { Some(v) => Some(TimeSpan { seconds: v, ..ts }), None => None }
    } else if k == 4 {
        match f(ts.minutes) { Some(v) => Some(TimeSpan { minutes: v, ..ts }), None => None }
    } else if k == 5 {
        match f(ts.hours) { Some(v) => Some(TimeSpan { hours: v, ..ts }), None => None }
    } else if k == 6 {
        match f(ts.days) { Some(v) => Some(TimeSpan { days: v, ..ts }), None => None }
    } else if k == 7 {
        match f(ts.weeks) { Some(v) => Some(TimeSpan { weeks: v, ..ts }), None => None }
    } else if k == 8 {
        match f(ts.months) { Some(v) => Some(TimeSpan { months: v, ..ts }), None => None }
    } else {
        match f(ts.years) { Some(v) => Some(TimeSpan { years: v, ..ts }), None => None }
    }
}

/// The span that the text from `p` on adds to `ts`: terms of a number,
/// optional spaces and an optional unit (seconds without one), with spaces
/// or tabs around them.
pub open spec fn parse_span_from(b: Seq<u8>, p: int, ts: TimeSpan) -> Option<TimeSpan>
    decreases b.len() - p,
{
    let p1 = skip_spaces(b, p);
    if p < 0 || p1 < p {
        None
    } else if p1 >= b.len() {
        Some(ts)
    } else {
        let q = digits_end(b, p1);
        if q <= p1 {
            None
        } else {
            match decimal_value(b.subrange(p1, q)) {
                None => None,
                Some(num) => {
                    let p2 = skip_spaces(b, q);
                    let u = letters_end(b, p2);
                    let unit = if u > p2 {
                        unit_field(b.subrange(p2, u))
                    } else {
                        None
                    };
                    let field = match unit {
                        Some(k) => k,
                        None => 3,
                    };
                    let next = if unit is Some {
                        u
                    } else {
                        p2
                    };
                    match add_field(ts, field, num) {
                        Some(ts2) => if next > p && next <= b.len() {
                            parse_span_from(b, next, ts2)
                        } else {
                            None
                        },
                        None => None,
                    }
                },
            }
        }
    }
}

/// The time span a text stands for.
pub open spec fn time_span_spec(b: Seq<u8>) -> Option<TimeSpan> {
    parse_span_from(b, 0, zero_span())
}

fn skip_spaces_exec(b: &[u8], p: usize) -> (r: usize)
    requires
        p <= b@.len(),
    ensures
        r == skip_spaces(b@, p as int),
        p <= r <= b@.len(),
{
    let mut i = p;
    while i < b.len() && (b[i] == 32 || b[i] == 9)
        invariant
            p <= i <= b@.len(),
            skip_spaces(b@, p as int) == skip_spaces(b@, i as int),
        decreases b@.len() - i,
    {
        i = i + 1;
    }
    i
}

fn digits_end_exec(b: &[u8], p: usize) -> (r: usize)
    requires
        p <= b@.len(),
    ensures
        r == digits_end(b@, p as int),
        p <= r <= b@.len(),
{
    let mut i = p;
    while i < b.len() && 48 <= b[i] && b[i] <= 57
        invariant
            p <= i <= b@.len(),
            digits_end(b@, p as int) == digits_end(b@, i as int),
        decreases b@.len() - i,
    {
        i = i + 1;
    }
    i
}

fn letters_end_exec(b: &[u8], p: usize) -> (r: usize)
    requires
        p <= b@.len(),
    ensures
        r == letters_end(b@, p as int),
        p <= r <= b@.len(),
{
    let mut i = p;
    loop
        invariant
            p <= i <= b@.len(),
            letters_end(b@, p as int) == letters_end(b@, i as int),
        decreases b@.len() - i,
    {
        if i < b.len() && ((65 <= b[i] && b[i] <= 90) || (97 <= b[i] && b[i] <= 122)) {
            i = i + 1;
        } else if i < b.len() && b.len() - i > 1 && b[i] == 0xC2 && b[i + 1] == 0xB5 {
            i = i + 2;
        } else {
            return i;
        }
    }
}

/// Digits must be ASCII digits; the value is checked against overflow.
fn decimal_value_exec(b: &[u8], p: usize, q: usize) -> (r: Option<u64>)
    requires
        p <= q <= b@.len(),
        forall|i: int| p <= i < q ==> is_digit(#[trigger] b@[i]),
    ensures
        r == decimal_value(b@.subrange(p as int, q as int)),
{
    let mut v: u64 = 0;
    let mut i = p;
    while i < q
        invariant
            p <= i <= q <= b@.len(),
            forall|j: int| p <= j < q ==> is_digit(#[trigger] b@[j]),
            decimal_value(b@.subrange(p as int, i as int)) == Some(v),
        decreases q - i,
    {
        let d = (b[i] - 48) as u64;
        proof {
            let s = b@.subrange(p as int, i + 1);
            assert(s.drop_last() =~= b@.subrange(p as int, i as int));
            assert(s.last() == b@[i as int]);
            assert(is_digit(b@[i as int]));
        }
        if v > (u64::MAX - d) / 10 {
            proof {
                assert(10 * v + d > u64::MAX) by (nonlinear_arith)
                    requires
                        v > (u64::MAX - d) / 10,
                        d <= 9,
                ;
                lemma_decimal_none_extends(b@, p as int, i as int + 1, q as int);
            }
            return None;
        }
        assert(10 * v + d <= u64::MAX) by (nonlinear_arith)
            requires
                v <= (u64::MAX - d) / 10,
                d <= 9,
        ;
        v = 10 * v + d;
        i = i + 1;
    }
    Some(v)
}

proof fn lemma_decimal_none_extends(b: Seq<u8>, p: int, i: int, q: int)
    requires
        0 <= p <= i <= q <= b.len(),
        decimal_value(b.subrange(p, i)) is None,
    ensures
        decimal_value(b.subrange(p, q)) is None,
    decreases q - i,
{
    if i < q {
        let s = b.subrange(p, i + 1);
        assert(s.drop_last() =~= b.subrange(p, i));
        lemma_decimal_none_extends(b, p, i + 1, q);
    }
}

fn bytes_are(u: &[u8], lit: &[u8]) -> (r: bool)
    ensures
        r == (u@ == lit@),
{
    if u.len() != lit.len() {
        return false;
    }
    let r = crate::bytes::range_equals(u, 0, lit);
    proof {
        assert(u@.subrange(0, lit@.len() as int) =~= u@);
    }
    r
}

fn unit_field_exec(u: &[u8]) -> (r: Option<u64>)
    ensures
        match unit_field(u@) {
            Some(k) => r == Some(k as u64),
            None => r is None,
        },
{
    proof {
        assert([115u8, 101, 99, 111, 110, 100, 115]@ =~= seq![115u8, 101, 99, 111, 110, 100, 115]);
        assert([115u8, 101, 99, 111, 110, 100]@ =~= seq![115u8, 101, 99, 111, 110, 100]);
        assert([115u8, 101, 99]@ =~= seq![115u8, 101, 99]);
        assert([115u8]@ =~= seq![115u8]);
        assert([109u8, 115, 101, 99]@ =~= seq![109u8, 115, 101, 99]);
        assert([109u8, 115]@ =~= seq![109u8, 115]);
        assert([117u8, 115, 101, 99]@ =~= seq![117u8, 115, 101, 99]);
        assert([117u8, 115]@ =~= seq![117u8, 115]);
        assert([0xC2u8, 0xB5, 115]@ =~= seq![0xC2u8, 0xB5, 115]);
        assert([110u8, 115, 101, 99]@ =~= seq![110u8, 115, 101, 99]);
        assert([110u8, 115]@ =~= seq![110u8, 115]);
        assert([109u8, 105, 110, 117, 116, 101, 115]@ =~= seq![109u8, 105, 110, 117, 116, 101, 115]);
        assert([109u8, 105, 110, 117, 116, 101]@ =~= seq![109u8, 105, 110, 117, 116, 101]);
        assert([109u8, 105, 110]@ =~= seq![109u8, 105, 110]);
        assert([109u8]@ =~= seq![109u8]);
        assert([104u8, 111, 117, 114, 115]@ =~= seq![104u8, 111, 117, 114, 115]);
        assert([104u8, 111, 117, 114]@ =~= seq![104u8, 111, 117, 114]);
        assert([104u8, 114]@ =~= seq![104u8, 114]);
        assert([104u8]@ =~= seq![104u8]);
        assert([100u8, 97, 121, 115]@ =~= seq![100u8, 97, 121, 115]);
        assert([100u8, 97, 121]@ =~= seq![100u8, 97, 121]);
        assert([100u8]@ =~= seq![100u8]);
        assert([119u8, 101, 101, 107, 115]@ =~= seq![119u8, 101, 101, 107, 115]);
        assert([119u8, 101, 101, 107]@ =~= seq![119u8, 101, 101, 107]);
        assert([119u8]@ =~= seq![119u8]);
        assert([109u8, 111, 110, 116, 104, 115]@ =~= seq![109u8, 111, 110, 116, 104, 115]);
        assert([109u8, 111, 110, 116, 104]@ =~= seq![109u8, 111, 110, 116, 104]);
        assert([77u8]@ =~= seq![77u8]);
        assert([121u8, 101, 97, 114, 115]@ =~= seq![121u8, 101, 97, 114, 115]);
        assert([121u8, 101, 97, 114]@ =~= seq![121u8, 101, 97, 114]);
        assert([121u8]@ =~= seq![121u8]);
    }
    if bytes_are(u, &[115u8, 101, 99, 111, 110, 100, 115]) || bytes_are(u, &[115u8, 101, 99, 111, 110, 100])
        || bytes_are(u, &[115u8, 101, 99]) || bytes_are(u, &[115u8]) {
        Some(3)
    } else if bytes_are(u, &[109u8, 115, 101, 99]) || bytes_are(u, &[109u8, 115]) {
        Some(2)
    } else if bytes_are(u, &[117u8, 115, 101, 99]) || bytes_are(u, &[117u8, 115]) || bytes_are(u, &[0xC2u8, 0xB5, 115]) {
        Some(1)
    } else if bytes_are(u, &[110u8, 115, 101, 99]) || bytes_are(u, &[110u8, 115]) {
        Some(0)
    } else if bytes_are(u, &[109u8, 105, 110, 117, 116, 101, 115]) || bytes_are(u, &[109u8, 105, 110, 117, 116, 101])
        || bytes_are(u, &[109u8, 105, 110]) || bytes_are(u, &[109u8]) {
        Some(4)
    } else if bytes_are(u, &[104u8, 111, 117, 114, 115]) || bytes_are(u, &[104u8, 111, 117, 114])
        || bytes_are(u, &[104u8, 114]) || bytes_are(u, &[104u8]) {
        Some(5)
    } else if bytes_are(u, &[100u8, 97, 121, 115]) || bytes_are(u, &[100u8, 97, 121]) || bytes_are(u, &[100u8]) {
        Some(6)
    } else if bytes_are(u, &[119u8, 101, 101, 107, 115]) || bytes_are(u, &[119u8, 101, 101, 107]) || bytes_are(u, &[119u8]) {
        Some(7)
    } else if bytes_are(u, &[109u8, 111, 110, 116, 104, 115]) || bytes_are(u, &[109u8, 111, 110, 116, 104])
        || bytes_are(u, &[77u8]) {
        Some(8)
    } else if bytes_are(u, &[121u8, 101, 97, 114, 115]) || bytes_are(u, &[121u8, 101, 97, 114]) || bytes_are(u, &[121u8]) {
        Some(9)
    } else {
        None
    }
}

fn checked(x: u64, num: u64) -> (r: Option<u64>)
    ensures
        x + num <= u64::MAX ==> r == Some((x + num) as u64),
        x + num > u64::MAX ==> r is None,
{
    if x > u64::MAX - num {
        None
    } else {
        Some(x + num)
    }
}

fn add_field_exec(ts: TimeSpan, k: u64, num: u64) -> (r: Option<TimeSpan>)
    ensures
        r == add_field(ts, k as nat, num),
{
    if k == 0 {
        match checked(ts.nsec, num) { Some(v) => Some(TimeSpan { nsec: v, ..ts }), None => None }
    } else if k == 1 {
        match checked(ts.usec, num) { Some(v) => Some(TimeSpan { usec: v, ..ts }), None => None }
    } else if k == 2 {
        match checked(ts.msec, num) { Some(v) => Some(TimeSpan { msec: v, ..ts }), None => None }
    } else if k == 3 {
        match checked(ts.seconds, num) { Some(v) => Some(TimeSpan { seconds: v, ..ts }), None => None }
    } else if k == 4 {
        match checked(ts.minutes, num) { Some(v) => Some(TimeSpan { minutes: v, ..ts }), None => None }
    } else if k == 5 {
        match checked(ts.hours, num) { Some(v) => Some(TimeSpan { hours: v, ..ts }), None => None }
    } else if k == 6 {
        match checked(ts.days, num) { Some(v) => Some(TimeSpan { days: v, ..ts }), None => None }
    } else if k == 7 {
        match checked(ts.weeks, num) { Some(v) => Some(TimeSpan { weeks: v, ..ts }), None => None }
    } else if k == 8 {
        match checked(ts.months, num) { Some(v) => Some(TimeSpan { months: v, ..ts }), None => None }
    } else {
        match checked(ts.years, num) { Some(v) => Some(TimeSpan { years: v, ..ts }), None => None }
    }
}

proof fn lemma_digits_run(b: Seq<u8>, p: int, j: int)
    requires
        0 <= p <= j < digits_end(b, p),
    ensures
        is_digit(b[j]),
    decreases j - p,
{
    if p < j {
        lemma_digits_run(b, p + 1, j);
    }
}

/// Parse a time span such as `2h 30min` or `1 day 12 hours`.
pub fn parse_time_span(i: &str) -> (r: Result<TimeSpan, TimeSpanError>)
    ensures
        match time_span_spec(i.spec_bytes()) {
            Some(ts) => r == Ok::<TimeSpan, TimeSpanError>(ts),
            None => r is Err,
        },
{
    let b = i.as_bytes();
    let mut pos: usize = 0;
    let mut ts = TimeSpan {
        nsec: 0,
        usec: 0,
        msec: 0,
        seconds: 0,
        minutes: 0,
        hours: 0,
        days: 0,
        weeks: 0,
        months: 0,
        years: 0,
    };
    loop
        invariant
            b@ == i.spec_bytes(),
            pos <= b@.len(),
            time_span_spec(b@) == parse_span_from(b@, pos as int, ts),
        decreases b@.len() - pos,
    {
        let p1 = skip_spaces_exec(b, pos);
        if p1 >= b.len() {
            return Ok(ts);
        }
        let q = digits_end_exec(b, p1);
        if q <= p1 {
            return Err(TimeSpanError::Syntax);
        }
        proof {
            assert forall|j: int| p1 <= j < q implies is_digit(#[trigger] b@[j]) by {
                lemma_digits_run(b@, p1 as int, j);
            }
        }
        let num = match decimal_value_exec(b, p1, q) {
            Some(v) => v,
            None => return Err(TimeSpanError::Overflow),
        };
        let p2 = skip_spaces_exec(b, q);
        let u = letters_end_exec(b, p2);
        let unit = if u > p2 {
            let text = &b[p2..u];
            assert(text@ =~= b@.subrange(p2 as int, u as int));
            unit_field_exec(text)
        } else {
            None
        };
        let (field, next) = match unit {
            Some(k) => (k, u),
            None => (3u64, p2),
        };
        ts = match add_field_exec(ts, field, num) {
            Some(t) => t,
            None => return Err(TimeSpanError::Overflow),
        };
        pos = next;
    }
}

} // verus!
