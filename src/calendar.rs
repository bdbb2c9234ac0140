//! Calendar events in the systemd style: an optional list of weekday
//! ranges and an optional `hour:minute[:second]` specification, each part
//! a `*` or a comma list of values, ranges (`a..b`) and repetitions (`a/b`).

use vstd::prelude::*;
use vstd::string::StringSliceAdditionalSpecFns;

use crate::time_span::{is_alpha, is_digit, skip_spaces};

verus! {

/// One value of a time component.
#[derive(Debug, Clone, Copy, PartialEq, Eq, Structural)]
pub enum DateTimeValue {
    Single(u32),
    Range(u32, u32),
    Repeated(u32, u32),
}

/// Weekday bits: Monday is 1, Tuesday 2, ... Sunday 64.
pub type WeekDays = u8;

/// A calendar event; an empty component list stands for `*`.
#[derive(Debug, Clone, PartialEq, Eq)]
pub struct CalendarEvent {
    pub days: WeekDays,
    pub second: Vec<DateTimeValue>,
    pub minute: Vec<DateTimeValue>,
    pub hour: Vec<DateTimeValue>,
}

pub type EventView = (u8, Seq<DateTimeValue>, Seq<DateTimeValue>, Seq<DateTimeValue>);

impl View for CalendarEvent {
    type V = EventView;

    open spec fn view(&self) -> EventView {
        (self.days, self.second@, self.minute@, self.hour@)
    }
}

/// Error raised while parsing a calendar event.
#[derive(Debug, Clone, Copy, PartialEq, Eq, Structural)]
pub enum CalendarError {
    /// Text that is not a calendar event.
    Syntax,
    /// `monthly`, `weekly`, `yearly`, `quarterly` and `semiannually` are
    /// not supported.
    NotImplemented,
}

pub open spec fn lower(c: u8) -> u8 {
    if 65 <= c <= 90 {
        (c + 32) as u8
    } else {
        c
    }
}

/// The end of the run of ASCII letters at `p`.
pub open spec fn alpha_end(b: Seq<u8>, p: int) -> int
    decreases b.len() - p,
{
    if 0 <= p < b.len() && is_alpha(b[p]) {
        alpha_end(b, p + 1)
    } else {
        p
    }
}

/// The weekday (0 Monday .. 6 Sunday) a name stands for, either case,
/// full or three letters.
pub open spec fn weekday_of(t: Seq<u8>) -> Option<nat> {
    let l = t.map_values(|c: u8| lower(c));
    if l == seq![109u8, 111, 110, 100, 97, 121] || l == seq![109u8, 111, 110] {
        Some(0)
    } else if l == seq![116u8, 117, 101, 115, 100, 97, 121] || l == seq![116u8, 117, 101] {
        Some(1)
    } else if l == seq![119u8, 101, 100, 110, 101, 115, 100, 97, 121] || l == seq![119u8, 101, 100] {
        Some(2)
    } else if l == seq![116u8, 104, 117, 114, 115, 100, 97, 121] || l == seq![116u8, 104, 117] {
        Some(3)
    } else if l == seq![102u8, 114, 105, 100, 97, 121] || l == seq![102u8, 114, 105] {
        Some(4)
    } else if l == seq![115u8, 97, 116, 117, 114, 100, 97, 121] || l == seq![115u8, 97, 116] {
        Some(5)
    } else if l == seq![115u8, 117, 110, 100, 97, 121] || l == seq![115u8, 117, 110] {
        Some(6)
    } else {
        None
    }
}

pub open spec fn parse_weekday(b: Seq<u8>, p: int) -> Option<(nat, int)> {
    let q = alpha_end(b, p);
    if q <= p {
        None
    } else {
        match weekday_of(b.subrange(p, q)) {
            Some(d) => Some((d, q)),
            None => None,
        }
    }
}

/// The bits of weekdays `a..=b` (no wrap).
pub open spec fn day_bits(a: nat, b: nat) -> u8
    decreases 7 - a,
{
    if a > b || a >= 7 {
        0
    } else {
        ((1u8 << (a as u8)) | day_bits(a + 1, b)) as u8
    }
}

/// The bits of a weekday range, wrapping past Sunday where the start is
/// after the end.
pub open spec fn range_bits(a: nat, b: nat) -> u8 {
    if a > b {
        (day_bits(a, 6) | day_bits(0, b)) as u8
    } else {
        day_bits(a, b)
    }
}

pub open spec fn has_dots(b: Seq<u8>, p: int) -> bool {
    0 <= p && p + 1 < b.len() && b[p] == 46 && b[p + 1] == 46
}

pub open spec fn parse_weekday_range(b: Seq<u8>, p: int) -> Option<(u8, int)> {
    match parse_weekday(b, p) {
        None => None,
        Some((s, p1)) => if has_dots(b, p1) && parse_weekday(b, p1 + 2) is Some {
            let (e, p2) = parse_weekday(b, p1 + 2)->Some_0;
            Some((range_bits(s, e), p2))
        } else {
            Some((day_bits(s, s), p1))
        },
    }
}

/// More weekday ranges after `,` from `p` on, or-ed into `acc`.
pub open spec fn weekday_list_from(b: Seq<u8>, p: int, acc: u8) -> (u8, int)
    decreases b.len() - p,
{
    if 0 <= p < b.len() && b[p] == 44 {
        match parse_weekday_range(b, p + 1) {
            Some((m, q)) => if p < q <= b.len() {
                weekday_list_from(b, q, (acc | m) as u8)
            } else {
                (acc, p)
            },
            None => (acc, p),
        }
    } else {
        (acc, p)
    }
}

pub open spec fn parse_weekday_list(b: Seq<u8>, p: int) -> Option<(u8, int)> {
    match parse_weekday_range(b, p) {
        Some((m, q)) => Some(weekday_list_from(b, q, m)),
        None => None,
    }
}

/// The end of the run of digits at `p`.
pub open spec fn digit_end(b: Seq<u8>, p: int) -> int
    decreases b.len() - p,
{
    if 0 <= p < b.len() && is_digit(b[p]) {
        digit_end(b, p + 1)
    } else {
        p
    }
}

pub open spec fn digits_val(b: Seq<u8>) -> nat
    decreases b.len(),
{
    if b.len() == 0 {
        0
    } else {
        10 * digits_val(b.drop_last()) + (b.last() - 48) as nat
    }
}

/// A decimal `u32` at `p`.
pub open spec fn parse_u32_at(b: Seq<u8>, p: int) -> Option<(u32, int)> {
    let q = digit_end(b, p);
    if q <= p || digits_val(b.subrange(p, q)) > u32::MAX {
        None
    } else {
        Some((digits_val(b.subrange(p, q)) as u32, q))
    }
}

pub open spec fn parse_comp(b: Seq<u8>, p: int) -> Option<(DateTimeValue, int)> {
    match parse_u32_at(b, p) {
        None => None,
        Some((v, p1)) => if has_dots(b, p1) && parse_u32_at(b, p1 + 2) is Some {
            let (e, p2) = parse_u32_at(b, p1 + 2)->Some_0;
            Some((DateTimeValue::Range(v, e), p2))
        } else if 0 <= p1 < b.len() && b[p1] == 47 {
            match parse_u32_at(b, p1 + 1) {
                Some((r, p2)) => Some((DateTimeValue::Repeated(v, r), p2)),
                None => None,
            }
        } else {
            Some((DateTimeValue::Single(v), p1))
        },
    }
}

pub open spec fn comp_list_from(b: Seq<u8>, p: int, acc: Seq<DateTimeValue>) -> (Seq<DateTimeValue>, int)
    decreases b.len() - p,
{
    if 0 <= p < b.len() && b[p] == 44 {
        match parse_comp(b, p + 1) {
            Some((v, q)) => if p < q <= b.len() {
                comp_list_from(b, q, acc.push(v))
            } else {
                (acc, p)
            },
            None => (acc, p),
        }
    } else {
        (acc, p)
    }
}

/// A component list at `p`: `*` (empty) or values separated by `,`.
pub open spec fn parse_comp_list(b: Seq<u8>, p: int) -> Option<(Seq<DateTimeValue>, int)> {
    if 0 <= p < b.len() && b[p] == 42 {
        Some((Seq::empty(), p + 1))
    } else {
        match parse_comp(b, p) {
            Some((v, q)) => Some(comp_list_from(b, q, seq![v])),
            None => None,
        }
    }
}

/// `hour:minute[:second]` at `p`; the second defaults to 0.
pub open spec fn parse_time_spec(b: Seq<u8>, p: int) -> Option<(Seq<DateTimeValue>, Seq<DateTimeValue>, Seq<DateTimeValue>, int)> {
    match parse_comp_list(b, p) {
        None => None,
        Some((h, p1)) => if 0 <= p1 < b.len() && b[p1] == 58 {
            match parse_comp_list(b, p1 + 1) {
                None => None,
                Some((m, p2)) => if 0 <= p2 < b.len() && b[p2] == 58 && parse_comp_list(b, p2 + 1) is Some {
                    let (s, p3) = parse_comp_list(b, p2 + 1)->Some_0;
                    Some((h, m, s, p3))
                } else {
                    Some((h, m, seq![DateTimeValue::Single(0)], p2))
                },
            }
        } else {
            None
        },
    }
}

pub open spec fn zero_list() -> Seq<DateTimeValue> {
    seq![DateTimeValue::Single(0)]
}

/// The event a whole text stands for.
pub open spec fn calendar_spec(b: Seq<u8>) -> Result<EventView, CalendarError> {
    let e: Seq<DateTimeValue> = Seq::empty();
    if b.len() > 0 && is_alpha(b[0]) && b == seq![109u8, 105, 110, 117, 116, 101, 108, 121] {
        Ok((0, zero_list(), e, e))
    } else if b.len() > 0 && is_alpha(b[0]) && b == seq![104u8, 111, 117, 114, 108, 121] {
        Ok((0, zero_list(), zero_list(), e))
    } else if b.len() > 0 && is_alpha(b[0]) && b == seq![100u8, 97, 105, 108, 121] {
        Ok((0, zero_list(), zero_list(), zero_list()))
    } else if b.len() > 0 && is_alpha(b[0]) && (b == seq![109u8, 111, 110, 116, 104, 108, 121]
        || b == seq![119u8, 101, 101, 107, 108, 121] || b == seq![121u8, 101, 97, 114, 108, 121]
        || b == seq![113u8, 117, 97, 114, 116, 101, 114, 108, 121]
        || b == seq![115u8, 101, 109, 105, 97, 110, 110, 117, 97, 108, 108, 121]) {
        Err(CalendarError::NotImplemented)
    } else {
        let day_part: Option<(u8, int)> = if b.len() > 0 && is_alpha(b[0]) {
            match parse_weekday_list(b, 0) {
                Some((d, q)) => Some((d, skip_spaces(b, q))),
                None => None,
            }
        } else {
            Some((0u8, 0int))
        };
        match day_part {
            None => Err(CalendarError::Syntax),
            Some((days, p)) => {
                let has_day = b.len() > 0 && is_alpha(b[0]);
                match parse_time_spec(b, p) {
                    Some((h, m, s, q)) => if q == b.len() {
                        Ok((days, s, m, h))
                    } else {
                        Err(CalendarError::Syntax)
                    },
                    None => if has_day && p == b.len() {
                        Ok((days, zero_list(), zero_list(), zero_list()))
                    } else {
                        Err(CalendarError::Syntax)
                    },
                }
            },
        }
    }
}


fn same_bytes(a: &[u8], lit: &[u8]) -> (r: bool)
    ensures
        r == (a@ == lit@),
{
    if a.len() != lit.len() {
        return false;
    }
    let r = crate::bytes::range_equals(a, 0, lit);
    proof {
        assert(a@.subrange(0, lit@.len() as int) =~= a@);
    }
    r
}

fn alpha_end_exec(b: &[u8], p: usize) -> (r: usize)
    requires
        p <= b@.len(),
    ensures
        r == alpha_end(b@, p as int),
        p <= r <= b@.len(),
{
    let mut i = p;
    while i < b.len() && ((65 <= b[i] && b[i] <= 90) || (97 <= b[i] && b[i] <= 122))
        invariant
            p <= i <= b@.len(),
            alpha_end(b@, p as int) == alpha_end(b@, i as int),
        decreases b@.len() - i,
    {
        i = i + 1;
    }
    i
}

fn digit_end_exec(b: &[u8], p: usize) -> (r: usize)
    requires
        p <= b@.len(),
    ensures
        r == digit_end(b@, p as int),
        p <= r <= b@.len(),
{
    let mut i = p;
    while i < b.len() && 48 <= b[i] && b[i] <= 57
        invariant
            p <= i <= b@.len(),
            digit_end(b@, p as int) == digit_end(b@, i as int),
        decreases b@.len() - i,
    {
        i = i + 1;
    }
    i
}

fn weekday_of_exec(b: &[u8], p: usize, q: usize) -> (r: Option<u8>)
    requires
        p <= q <= b@.len(),
    ensures
        match weekday_of(b@.subrange(p as int, q as int)) {
            Some(d) => r == Some(d as u8),
            None => r is None,
        },
{
    let mut l: Vec<u8> = Vec::new();
    let mut i = p;
    while i < q
        invariant
            p <= i <= q <= b@.len(),
            l@ == b@.subrange(p as int, i as int).map_values(|c: u8| lower(c)),
        decreases q - i,
    {
        let c = b[i];
        let lc = if 65 <= c && c <= 90 {
            c + 32
        } else {
            c
        };
        l.push(lc);
        assert(l@ =~= b@.subrange(p as int, i + 1).map_values(|c: u8| lower(c)));
        i = i + 1;
    }
    proof {
        assert([109u8, 111, 110, 100, 97, 121]@ =~= seq![109u8, 111, 110, 100, 97, 121]);
        assert([109u8, 111, 110]@ =~= seq![109u8, 111, 110]);
        assert([116u8, 117, 101, 115, 100, 97, 121]@ =~= seq![116u8, 117, 101, 115, 100, 97, 121]);
        assert([116u8, 117, 101]@ =~= seq![116u8, 117, 101]);
        assert([119u8, 101, 100, 110, 101, 115, 100, 97, 121]@ =~= seq![119u8, 101, 100, 110, 101, 115, 100, 97, 121]);
        assert([119u8, 101, 100]@ =~= seq![119u8, 101, 100]);
        assert([116u8, 104, 117, 114, 115, 100, 97, 121]@ =~= seq![116u8, 104, 117, 114, 115, 100, 97, 121]);
        assert([116u8, 104, 117]@ =~= seq![116u8, 104, 117]);
        assert([102u8, 114, 105, 100, 97, 121]@ =~= seq![102u8, 114, 105, 100, 97, 121]);
        assert([102u8, 114, 105]@ =~= seq![102u8, 114, 105]);
        assert([115u8, 97, 116, 117, 114, 100, 97, 121]@ =~= seq![115u8, 97, 116, 117, 114, 100, 97, 121]);
        assert([115u8, 97, 116]@ =~= seq![115u8, 97, 116]);
        assert([115u8, 117, 110, 100, 97, 121]@ =~= seq![115u8, 117, 110, 100, 97, 121]);
        assert([115u8, 117, 110]@ =~= seq![115u8, 117, 110]);
    }
    if same_bytes(l.as_slice(), &[109u8, 111, 110, 100, 97, 121]) || same_bytes(l.as_slice(), &[109u8, 111, 110]) {
        Some(0)
    } else if same_bytes(l.as_slice(), &[116u8, 117, 101, 115, 100, 97, 121]) || same_bytes(l.as_slice(), &[116u8, 117, 101]) {
        Some(1)
    } else if same_bytes(l.as_slice(), &[119u8, 101, 100, 110, 101, 115, 100, 97, 121]) || same_bytes(l.as_slice(), &[119u8, 101, 100]) {
        Some(2)
    } else if same_bytes(l.as_slice(), &[116u8, 104, 117, 114, 115, 100, 97, 121]) || same_bytes(l.as_slice(), &[116u8, 104, 117]) {
        Some(3)
    } else if same_bytes(l.as_slice(), &[102u8, 114, 105, 100, 97, 121]) || same_bytes(l.as_slice(), &[102u8, 114, 105]) {
        Some(4)
    } else if same_bytes(l.as_slice(), &[115u8, 97, 116, 117, 114, 100, 97, 121]) || same_bytes(l.as_slice(), &[115u8, 97, 116]) {
        Some(5)
    } else if same_bytes(l.as_slice(), &[115u8, 117, 110, 100, 97, 121]) || same_bytes(l.as_slice(), &[115u8, 117, 110]) {
        Some(6)
    } else {
        None
    }
}

fn parse_weekday_exec(b: &[u8], p: usize) -> (r: Option<(u8, usize)>)
    requires
        p <= b@.len(),
    ensures
        match parse_weekday(b@, p as int) {
            Some((d, q)) => r == Some((d as u8, q as usize)) && p < q <= b@.len() && d < 7,
            None => r is None,
        },
{
    let blen = b.len();
    assert(blen == b@.len());
    let q = alpha_end_exec(b, p);
    if q <= p {
        return None;
    }
    match weekday_of_exec(b, p, q) {
        Some(d) => Some((d, q)),
        None => None,
    }
}

fn day_bits_exec(a: u8, b: u8) -> (r: u8)
    requires
        a <= 7,
    ensures
        r == day_bits(a as nat, b as nat),
    decreases 7 - a,
{
    if a > b || a >= 7 {
        0
    } else {
        (1u8 << a) | day_bits_exec(a + 1, b)
    }
}

fn has_dots_exec(b: &[u8], p: usize) -> (r: bool)
    ensures
        r == has_dots(b@, p as int),
{
    p < b.len() && b.len() - p > 1 && b[p] == 46 && b[p + 1] == 46
}

fn parse_weekday_range_exec(b: &[u8], p: usize) -> (r: Option<(u8, usize)>)
    requires
        p <= b@.len(),
    ensures
        match parse_weekday_range(b@, p as int) {
            Some((m, q)) => r == Some((m, q as usize)) && p < q <= b@.len(),
            None => r is None,
        },
{
    let blen = b.len();
    let (s, p1) = match parse_weekday_exec(b, p) {
        Some(x) => x,
        None => return None,
    };
    if has_dots_exec(b, p1) {
        if let Some((e, p2)) = parse_weekday_exec(b, p1 + 2) {
            let m = if s > e {
                day_bits_exec(s, 6) | day_bits_exec(0, e)
            } else {
                day_bits_exec(s, e)
            };
            return Some((m, p2));
        }
    }
    Some((day_bits_exec(s, s), p1))
}

fn parse_weekday_list_exec(b: &[u8], p: usize) -> (r: Option<(u8, usize)>)
    requires
        p <= b@.len(),
    ensures
        match parse_weekday_list(b@, p as int) {
            Some((m, q)) => r == Some((m, q as usize)) && q <= b@.len(),
            None => r is None,
        },
        r is Some ==> r->Some_0.1 <= b@.len() && r->Some_0.1 as int == parse_weekday_list(b@, p as int)->Some_0.1,
{
    let blen = b.len();
    assert(blen == b@.len());
    let (first, q0) = match parse_weekday_range_exec(b, p) {
        Some(x) => x,
        None => return None,
    };
    let mut acc = first;
    let mut pos = q0;
    while pos < b.len() && b[pos] == 44
        invariant
            pos <= b@.len(),
            p <= b@.len(),
            parse_weekday_range(b@, p as int) == Some((first, q0 as int)),
            weekday_list_from(b@, q0 as int, first) == weekday_list_from(b@, pos as int, acc),
        decreases b@.len() - pos,
    {
        match parse_weekday_range_exec(b, pos + 1) {
            Some((m, q)) => {
                acc = acc | m;
                pos = q;
            },
            None => {
                return Some((acc, pos));
            },
        }
    }
    Some((acc, pos))
}

fn parse_u32_exec(b: &[u8], p: usize) -> (r: Option<(u32, usize)>)
    requires
        p <= b@.len(),
    ensures
        match parse_u32_at(b@, p as int) {
            Some((v, q)) => r == Some((v, q as usize)) && p < q <= b@.len(),
            None => r is None,
        },
{
    let blen = b.len();
    assert(blen == b@.len());
    let q = digit_end_exec(b, p);
    if q <= p {
        return None;
    }
    let mut v: u64 = 0;
    let mut i = p;
    while i < q
        invariant
            p <= i <= q <= b@.len(),
            q == digit_end(b@, p as int),
            v == digits_val(b@.subrange(p as int, i as int)),
            v <= u32::MAX,
        decreases q - i,
    {
        proof {
            lemma_digit_run(b@, p as int, i as int);
            let s = b@.subrange(p as int, i + 1);
            assert(s.drop_last() =~= b@.subrange(p as int, i as int));
        }
        let d = (b[i] - 48) as u64;
        v = 10 * v + d;
        if v > u32::MAX as u64 {
            proof {
                assert forall|j: int| p <= j < q implies is_digit(#[trigger] b@[j]) by {
                    lemma_digit_run(b@, p as int, j);
                }
                lemma_digits_val_grows(b@, p as int, i + 1, q as int);
            }
            return None;
        }
        i = i + 1;
    }
    Some((v as u32, q))
}

proof fn lemma_digit_run(b: Seq<u8>, p: int, j: int)
    requires
        0 <= p <= j < digit_end(b, p),
    ensures
        is_digit(b[j]),
    decreases j - p,
{
    if p < j {
        lemma_digit_run(b, p + 1, j);
    }
}

proof fn lemma_digits_val_grows(b: Seq<u8>, p: int, i: int, q: int)
    requires
        0 <= p <= i <= q <= b.len(),
        forall|j: int| p <= j < q ==> is_digit(#[trigger] b[j]),
    ensures
        digits_val(b.subrange(p, q)) >= digits_val(b.subrange(p, i)),
    decreases q - i,
{
    if i < q {
        let s = b.subrange(p, q);
        assert(s.drop_last() =~= b.subrange(p, q - 1));
        lemma_digits_val_grows(b, p, i, q - 1);
    }
}

fn parse_comp_exec(b: &[u8], p: usize) -> (r: Option<(DateTimeValue, usize)>)
    requires
        p <= b@.len(),
    ensures
        match parse_comp(b@, p as int) {
            Some((v, q)) => r == Some((v, q as usize)) && p < q <= b@.len(),
            None => r is None,
        },
{
    let blen = b.len();
    let (v, p1) = match parse_u32_exec(b, p) {
        Some(x) => x,
        None => return None,
    };
    if has_dots_exec(b, p1) {
        if let Some((e, p2)) = parse_u32_exec(b, p1 + 2) {
            return Some((DateTimeValue::Range(v, e), p2));
        }
    }
    if p1 < b.len() && b[p1] == 47 {
        return match parse_u32_exec(b, p1 + 1) {
            Some((rep, p2)) => Some((DateTimeValue::Repeated(v, rep), p2)),
            None => None,
        };
    }
    Some((DateTimeValue::Single(v), p1))
}

fn parse_comp_list_exec(b: &[u8], p: usize) -> (r: Option<(Vec<DateTimeValue>, usize)>)
    requires
        p <= b@.len(),
    ensures
        match parse_comp_list(b@, p as int) {
            Some((l, q)) => r is Some && r->Some_0.0@ == l && r->Some_0.1 == q && q <= b@.len(),
            None => r is None,
        },
{
    let blen = b.len();
    assert(blen == b@.len());
    if p < b.len() && b[p] == 42 {
        return Some((Vec::new(), p + 1));
    }
    let (first, q0) = match parse_comp_exec(b, p) {
        Some(x) => x,
        None => return None,
    };
    let mut list: Vec<DateTimeValue> = Vec::new();
    list.push(first);
    let mut pos = q0;
    assert(list@ =~= seq![first]);
    while pos < b.len() && b[pos] == 44
        invariant
            pos <= b@.len(),
            p <= b@.len(),
            !(p < b@.len() && b@[p as int] == 42),
            parse_comp(b@, p as int) == Some((first, q0 as int)),
            comp_list_from(b@, q0 as int, seq![first]) == comp_list_from(b@, pos as int, list@),
        decreases b@.len() - pos,
    {
        match parse_comp_exec(b, pos + 1) {
            Some((v, q)) => {
                list.push(v);
                pos = q;
            },
            None => {
                return Some((list, pos));
            },
        }
    }
    Some((list, pos))
}

fn parse_time_spec_exec(b: &[u8], p: usize) -> (r: Option<(Vec<DateTimeValue>, Vec<DateTimeValue>, Vec<DateTimeValue>, usize)>)
    requires
        p <= b@.len(),
    ensures
        match parse_time_spec(b@, p as int) {
            Some((h, m, s, q)) => r is Some && r->Some_0.0@ == h && r->Some_0.1@ == m && r->Some_0.2@ == s
                && r->Some_0.3 == q && q <= b@.len(),
            None => r is None,
        },
{
    let blen = b.len();
    assert(blen == b@.len());
    let (h, p1) = match parse_comp_list_exec(b, p) {
        Some(x) => x,
        None => return None,
    };
    if !(p1 < b.len() && b[p1] == 58) {
        return None;
    }
    let (m, p2) = match parse_comp_list_exec(b, p1 + 1) {
        Some(x) => x,
        None => return None,
    };
    if p2 < b.len() && b[p2] == 58 {
        if let Some((s, p3)) = parse_comp_list_exec(b, p2 + 1) {
            return Some((h, m, s, p3));
        }
    }
    let mut s: Vec<DateTimeValue> = Vec::new();
    s.push(DateTimeValue::Single(0));
    assert(s@ =~= zero_list());
    Some((h, m, s, p2))
}

fn zero_vec() -> (r: Vec<DateTimeValue>)
    ensures
        r@ == zero_list(),
{
    let mut s: Vec<DateTimeValue> = Vec::new();
    s.push(DateTimeValue::Single(0));
    assert(s@ =~= zero_list());
    s
}

fn skip_spaces_at(b: &[u8], p: usize) -> (r: usize)
    requires
        p <= b@.len(),
    ensures
        r == skip_spaces(b@, p as int),
        p <= r <= b@.len(),
{
    let mut i = p;
    while i < b.len() && (b[i] == 32 || b[i] == 9)
        invariant
            p <= i <= b@.len(),
            skip_spaces(b@, p as int) == skip_spaces(b@, i as int),
        decreases b@.len() - i,
    {
        i = i + 1;
    }
    i
}

/// Parse a calendar event such as `mon..fri 8:00`, `daily` or `*:0/15`.
pub fn parse_calendar_event(i: &str) -> (r: Result<CalendarEvent, CalendarError>)
    ensures
        match calendar_spec(i.spec_bytes()) {
            Ok(v) => r is Ok && r->Ok_0@ == v,
            Err(e) => r == Err::<CalendarEvent, CalendarError>(e),
        },
{
    let b = i.as_bytes();
    let blen = b.len();
    assert(blen == b@.len());
    proof {
        assert([109u8, 105, 110, 117, 116, 101, 108, 121]@ =~= seq![109u8, 105, 110, 117, 116, 101, 108, 121]);
        assert([104u8, 111, 117, 114, 108, 121]@ =~= seq![104u8, 111, 117, 114, 108, 121]);
        assert([100u8, 97, 105, 108, 121]@ =~= seq![100u8, 97, 105, 108, 121]);
        assert([109u8, 111, 110, 116, 104, 108, 121]@ =~= seq![109u8, 111, 110, 116, 104, 108, 121]);
        assert([119u8, 101, 101, 107, 108, 121]@ =~= seq![119u8, 101, 101, 107, 108, 121]);
        assert([121u8, 101, 97, 114, 108, 121]@ =~= seq![121u8, 101, 97, 114, 108, 121]);
        assert([113u8, 117, 97, 114, 116, 101, 114, 108, 121]@ =~= seq![113u8, 117, 97, 114, 116, 101, 114, 108, 121]);
        assert([115u8, 101, 109, 105, 97, 110, 110, 117, 97, 108, 108, 121]@ =~= seq![115u8, 101, 109, 105, 97, 110, 110, 117, 97, 108, 108, 121]);
    }
    let alpha = b.len() > 0 && ((65 <= b[0] && b[0] <= 90) || (97 <= b[0] && b[0] <= 122));
    if alpha {
        if same_bytes(b, &[109u8, 105, 110, 117, 116, 101, 108, 121]) {
            return Ok(CalendarEvent { days: 0, second: zero_vec(), minute: Vec::new(), hour: Vec::new() });
        }
        if same_bytes(b, &[104u8, 111, 117, 114, 108, 121]) {
            return Ok(CalendarEvent { days: 0, second: zero_vec(), minute: zero_vec(), hour: Vec::new() });
        }
        if same_bytes(b, &[100u8, 97, 105, 108, 121]) {
            return Ok(CalendarEvent { days: 0, second: zero_vec(), minute: zero_vec(), hour: zero_vec() });
        }
        if same_bytes(b, &[109u8, 111, 110, 116, 104, 108, 121]) || same_bytes(b, &[119u8, 101, 101, 107, 108, 121])
            || same_bytes(b, &[121u8, 101, 97, 114, 108, 121]) || same_bytes(b, &[113u8, 117, 97, 114, 116, 101, 114, 108, 121])
            || same_bytes(b, &[115u8, 101, 109, 105, 97, 110, 110, 117, 97, 108, 108, 121]) {
            return Err(CalendarError::NotImplemented);
        }
    }
    let (days, p) = if alpha {
        match parse_weekday_list_exec(b, 0) {
            Some((d, q)) => (d, skip_spaces_at(b, q)),
            None => return Err(CalendarError::Syntax),
        }
    } else {
        (0u8, 0usize)
    };
    match parse_time_spec_exec(b, p) {
        Some((h, m, s, q)) => {
            if q == b.len() {
                Ok(CalendarEvent { days, second: s, minute: m, hour: h })
            } else {
                Err(CalendarError::Syntax)
            }
        },
        None => {
            if alpha && p == b.len() {
                Ok(CalendarEvent { days, second: zero_vec(), minute: zero_vec(), hour: zero_vec() })
            } else {
                Err(CalendarError::Syntax)
            }
        },
    }
}

} // verus!
