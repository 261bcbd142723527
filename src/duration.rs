//! A column of durations: its time unit, conversions between units, and its
//! textual forms.
use vstd::prelude::*;
use vstd::string::{StrSliceExecFns, StringExecFns};
use crate::delta::{fit_i64, Delta};
use crate::fmt::{digits, fraction_digits, int_text, push_digits, push_fraction, push_int};

verus! {

#[derive(Clone, Copy, PartialEq, Eq, Structural, Debug)]
pub enum TimeUnit {
    Nanoseconds,
    Microseconds,
    Milliseconds,
}

/// Division rounding towards zero, as Rust's `/` on signed integers does.
pub open spec fn tdiv(a: int, b: int) -> int {
    if a >= 0 {
        a / b
    } else {
        -((-a) / b)
    }
}

/// The remainder that goes with [`tdiv`], as Rust's `%` on signed integers.
pub open spec fn trem(a: int, b: int) -> int {
    a - b * tdiv(a, b)
}

fn trunc_div(a: i64, b: i64) -> (res: i64)
    requires
        b > 1,
    ensures
        res == tdiv(a as int, b as int),
{
    if a >= 0 {
        ((a as u64) / (b as u64)) as i64
    } else {
        let m: u64 = (-(a as i128)) as u64;
        let q: u64 = m / (b as u64);
        assert(q <= m / 2) by (nonlinear_arith)
            requires
                q == m / (b as u64),
                b > 1,
        ;
        -(q as i64)
    }
}

fn trunc_rem(a: i64, b: i64) -> (res: i64)
    requires
        b > 1,
    ensures
        res == trem(a as int, b as int),
        -(b as int) < res < b,
        (a >= 0 ==> res >= 0) && (a <= 0 ==> res <= 0),
{
    let q = trunc_div(a, b);
    proof {
        let bb = b as int;
        if a >= 0 {
            let m = a as int;
            assert(0 <= m - bb * (m / bb) < bb) by (nonlinear_arith)
                requires
                    m >= 0,
                    bb > 1,
            ;
        } else {
            let m = -(a as int);
            assert(0 <= m - bb * (m / bb) < bb) by (nonlinear_arith)
                requires
                    m > 0,
                    bb > 1,
            ;
            assert(bb * (-(m / bb)) == -(bb * (m / bb))) by (nonlinear_arith);
        }
    }
    a - b * q
}

/// How many nanoseconds one step of `u` is.
pub open spec fn nanos_per(u: TimeUnit) -> int {
    match u {
        TimeUnit::Nanoseconds => 1,
        TimeUnit::Microseconds => 1_000,
        TimeUnit::Milliseconds => 1_000_000,
    }
}

/// A value counted in `from` counted in `to` instead: multiplied (wrapping)
/// towards a finer unit, divided (towards zero) towards a coarser one.
pub open spec fn convert_value(v: i64, from: TimeUnit, to: TimeUnit) -> i64 {
    if nanos_per(from) > nanos_per(to) {
        vstd::wrapping::i64_specs::wrapping_mul(v, (nanos_per(from) / nanos_per(to)) as i64)
    } else if nanos_per(from) < nanos_per(to) {
        tdiv(v as int, nanos_per(to) / nanos_per(from)) as i64
    } else {
        v
    }
}

/// Why a duration column could not be written out.
#[derive(Debug, PartialEq, Eq)]
pub enum DurationFormatError {
    /// Only `iso`, `iso:strict` and `polars` are known.
    InvalidOperation(String),
}

/// A column of optional durations, counted in one time unit.
pub struct DurationChunked {
    pub name: String,
    pub values: Vec<Option<i64>>,
    pub unit: TimeUnit,
}

impl DurationChunked {
    pub open spec fn spec_unit(&self) -> TimeUnit {
        self.unit
    }

    pub fn new(name: String, values: Vec<Option<i64>>, unit: TimeUnit) -> (res: Self)
        ensures
            res.name == name,
            res.values == values,
            res.spec_unit() == unit,
    {
        DurationChunked { name, values, unit }
    }

    pub fn time_unit(&self) -> (res: TimeUnit)
        ensures
            res == self.spec_unit(),
    {
        self.unit
    }

    /// Changes the unit without touching the values.
    pub fn set_time_unit(&mut self, tu: TimeUnit)
        ensures
            final(self).spec_unit() == tu,
            final(self).values == old(self).values,
            final(self).name == old(self).name,
    {
        self.unit = tu;
    }

    /// The same durations counted in `tu`; nulls stay null.
    pub fn cast_time_unit(&self, tu: TimeUnit) -> (res: Self)
        ensures
            res.spec_unit() == tu,
            res.name == self.name,
            res.values@.len() == self.values@.len(),
            forall|i: int| 0 <= i < self.values@.len() ==> #[trigger] res.values@[i] == match self.values@[i] {
                Some(v) => Some(convert_value(v, self.spec_unit(), tu)),
                None => None,
            },
    {
        let current = self.time_unit();
        let mut out: Vec<Option<i64>> = Vec::new();
        let mut i: usize = 0;
        while i < self.values.len()
            invariant
                i <= self.values@.len(),
                current == self.spec_unit(),
                out@.len() == i,
                forall|j: int| 0 <= j < i ==> #[trigger] out@[j] == match self.values@[j] {
                    Some(v) => Some(convert_value(v, self.spec_unit(), tu)),
                    None => None,
                },
            decreases self.values@.len() - i,
        {
            let converted = match self.values[i] {
                Some(v) => {
                    let c = match (current, tu) {
                        (TimeUnit::Nanoseconds, TimeUnit::Microseconds) => trunc_div(v, 1_000),
                        (TimeUnit::Nanoseconds, TimeUnit::Milliseconds) => trunc_div(v, 1_000_000),
                        (TimeUnit::Microseconds, TimeUnit::Nanoseconds) => v.wrapping_mul(1_000),
                        (TimeUnit::Microseconds, TimeUnit::Milliseconds) => trunc_div(v, 1_000),
                        (TimeUnit::Milliseconds, TimeUnit::Nanoseconds) => v.wrapping_mul(1_000_000),
                        (TimeUnit::Milliseconds, TimeUnit::Microseconds) => v.wrapping_mul(1_000),
                        _ => v,
                    };
                    Some(c)
                },
                None => None,
            };
            out.push(converted);
            i = i + 1;
        }
        DurationChunked { name: self.name.clone(), values: out, unit: tu }
    }
}

/// How many steps of `u` make a day (`i == 0`), an hour, a minute and a
/// second (`i == 3`).
pub open spec fn part_size(u: TimeUnit, i: int) -> int {
    let second = 1_000_000_000int / nanos_per(u);
    if i == 0 {
        86_400 * second
    } else if i == 1 {
        3_600 * second
    } else if i == 2 {
        60 * second
    } else {
        second
    }
}

fn part_size_of(u: TimeUnit, i: usize) -> (res: i64)
    requires
        i < 4,
    ensures
        res == part_size(u, i as int),
        res >= 1_000,
{
    let second: i64 = match u {
        TimeUnit::Nanoseconds => 1_000_000_000,
        TimeUnit::Microseconds => 1_000_000,
        TimeUnit::Milliseconds => 1_000,
    };
    if i == 0 {
        86_400 * second
    } else if i == 1 {
        3_600 * second
    } else if i == 2 {
        60 * second
    } else {
        second
    }
}

/// The whole days (`i == 0`), hours, minutes or seconds of `v` that the
/// larger parts leave over.
pub open spec fn whole_part(v: int, u: TimeUnit, i: int) -> int {
    if i == 0 {
        tdiv(v, part_size(u, 0))
    } else {
        tdiv(trem(v, part_size(u, i - 1)), part_size(u, i))
    }
}

pub open spec fn part_letter(i: int) -> char {
    if i == 0 {
        'd'
    } else if i == 1 {
        'h'
    } else if i == 2 {
        'm'
    } else {
        's'
    }
}

/// One part of the `polars` form: the count and its letter, then a space if
/// anything smaller follows; nothing for a zero count.
pub open spec fn polars_part(v: int, u: TimeUnit, i: int) -> Seq<char> {
    let w = whole_part(v, u, i);
    if w != 0 {
        int_text(w) + seq![part_letter(i)] + if trem(v, part_size(u, i)) != 0 {
            seq![' ']
        } else {
            Seq::empty()
        }
    } else {
        Seq::empty()
    }
}

/// The name of one thousandth (`k == 0`), one millionth (`k == 1`) or one
/// billionth (`k == 2`)... of a second, in steps of `u` counted up from `u`.
pub open spec fn sub_unit_name(u: TimeUnit, k: int) -> Seq<char> {
    let names = match u {
        TimeUnit::Nanoseconds => seq![seq!['n', 's'], seq!['\u{b5}', 's'], seq!['m', 's']],
        TimeUnit::Microseconds => seq![seq!['\u{b5}', 's'], seq!['m', 's'], Seq::empty()],
        TimeUnit::Milliseconds => seq![seq!['m', 's'], Seq::empty(), Seq::empty()],
    };
    names[k]
}

/// The part of `v` below a second, in the largest of nano-, micro- and
/// milliseconds that counts it whole; nothing when there is none.
pub open spec fn polars_subsecond(v: int, u: TimeUnit) -> Seq<char> {
    let f = trem(v, part_size(u, 3));
    if f == 0 {
        Seq::empty()
    } else if trem(f, 1_000) != 0 {
        int_text(f) + sub_unit_name(u, 0)
    } else if trem(f, 1_000_000) != 0 {
        int_text(tdiv(f, 1_000)) + sub_unit_name(u, 1)
    } else {
        int_text(tdiv(f, 1_000_000)) + sub_unit_name(u, 2)
    }
}

/// The `polars` form of a duration, such as `1d 2h 3m 4s 5ms`.
pub open spec fn polars_text(v: int, u: TimeUnit) -> Seq<char> {
    if v == 0 {
        seq!['0'] + sub_unit_name(u, 0)
    } else {
        polars_part(v, u, 0) + polars_part(v, u, 1) + polars_part(v, u, 2) + polars_part(v, u, 3)
            + polars_subsecond(v, u)
    }
}

fn push_sub_unit_name(s: &mut String, u: TimeUnit, k: usize)
    requires
        k < 3,
    ensures
        final(s)@ == old(s)@ + sub_unit_name(u, k as int),
{
    proof {
        reveal_strlit("ns");
        reveal_strlit("\u{b5}s");
        reveal_strlit("ms");
    }
    let name: &str = match u {
        TimeUnit::Nanoseconds => if k == 0 {
            "ns"
        } else if k == 1 {
            "\u{b5}s"
        } else {
            "ms"
        },
        TimeUnit::Microseconds => if k == 0 {
            "\u{b5}s"
        } else if k == 1 {
            "ms"
        } else {
            ""
        },
        TimeUnit::Milliseconds => if k == 0 {
            "ms"
        } else {
            ""
        },
    };
    proof {
        reveal_strlit("");
    }
    s.append(name);
    assert(s@ =~= old(s)@ + sub_unit_name(u, k as int));
}

fn push_polars_part(s: &mut String, v: i64, u: TimeUnit, i: usize)
    requires
        i < 4,
    ensures
        final(s)@ == old(s)@ + polars_part(v as int, u, i as int),
{
    let size = part_size_of(u, i);
    let w = if i == 0 {
        trunc_div(v, size)
    } else {
        trunc_div(trunc_rem(v, part_size_of(u, i - 1)), size)
    };
    if w != 0 {
        push_int(s, w);
        proof {
            reveal_strlit("d");
            reveal_strlit("h");
            reveal_strlit("m");
            reveal_strlit("s");
            reveal_strlit(" ");
        }
        let letter: &str = if i == 0 {
            "d"
        } else if i == 1 {
            "h"
        } else if i == 2 {
            "m"
        } else {
            "s"
        };
        s.append(letter);
        if trunc_rem(v, size) != 0 {
            s.append(" ");
        }
    }
    assert(s@ =~= old(s)@ + polars_part(v as int, u, i as int));
}

fn push_polars_subsecond(s: &mut String, v: i64, u: TimeUnit)
    ensures
        final(s)@ == old(s)@ + polars_subsecond(v as int, u),
{
    let f = trunc_rem(v, part_size_of(u, 3));
    if f != 0 {
        if trunc_rem(f, 1_000) != 0 {
            push_int(s, f);
            push_sub_unit_name(s, u, 0);
        } else if trunc_rem(f, 1_000_000) != 0 {
            push_int(s, trunc_div(f, 1_000));
            push_sub_unit_name(s, u, 1);
        } else {
            push_int(s, trunc_div(f, 1_000_000));
            push_sub_unit_name(s, u, 2);
        }
    }
    assert(s@ =~= old(s)@ + polars_subsecond(v as int, u));
}

/// Appends the `polars` form of `v`.
#[verifier::rlimit(50)]
pub fn push_polars_duration(s: &mut String, v: i64, u: TimeUnit)
    ensures
        final(s)@ == old(s)@ + polars_text(v as int, u),
{
    if v == 0 {
        proof {
            reveal_strlit("0");
        }
        s.append("0");
        push_sub_unit_name(s, u, 0);
        assert(s@ =~= old(s)@ + polars_text(v as int, u));
        return;
    }
    let ghost s0 = s@;
    push_polars_part(s, v, u, 0);
    let ghost s1 = s@;
    push_polars_part(s, v, u, 1);
    let ghost s2 = s@;
    push_polars_part(s, v, u, 2);
    let ghost s3 = s@;
    push_polars_part(s, v, u, 3);
    let ghost s4 = s@;
    push_polars_subsecond(s, v, u);
    assert(s@ == s4 + polars_subsecond(v as int, u));
    assert(s4 =~= s0 + (polars_part(v as int, u, 0) + polars_part(v as int, u, 1) + polars_part(v as int, u, 2)
        + polars_part(v as int, u, 3)));
    assert(s@ =~= old(s)@ + polars_text(v as int, u));
}

/// The digits after the decimal point that a fraction of a second needs, in
/// steps of `u`.
pub open spec fn fraction_width(u: TimeUnit) -> nat {
    match u {
        TimeUnit::Nanoseconds => 9,
        TimeUnit::Microseconds => 6,
        TimeUnit::Milliseconds => 3,
    }
}

/// A count and its letter, or nothing for a zero count.
pub open spec fn iso_part(w: nat, letter: char) -> Seq<char> {
    if w != 0 {
        digits(w) + seq![letter]
    } else {
        Seq::empty()
    }
}

/// The time part of the ISO 8601 form of the magnitude `a`: hours, minutes,
/// and seconds with their fraction (trailing zeros dropped).
pub open spec fn iso_time(a: nat, u: TimeUnit) -> Seq<char> {
    let w1 = (a % part_size(u, 0) as nat) / part_size(u, 1) as nat;
    let w2 = (a % part_size(u, 1) as nat) / part_size(u, 2) as nat;
    let w3 = (a % part_size(u, 2) as nat) / part_size(u, 3) as nat;
    let frac = a % part_size(u, 3) as nat;
    iso_part(w1, 'H') + iso_part(w2, 'M') + iso_seconds(w3, frac, u)
}

/// Whole seconds `w` and the fraction `frac` (in steps of `u`) of the ISO
/// form; nothing when both are zero.
pub open spec fn iso_seconds(w: nat, frac: nat, u: TimeUnit) -> Seq<char> {
    if w != 0 || frac != 0 {
        digits(w) + if frac != 0 {
            seq!['.'] + fraction_digits(frac, fraction_width(u))
        } else {
            Seq::empty()
        } + seq!['S']
    } else {
        Seq::empty()
    }
}

/// The ISO 8601 form of a duration, such as `P1DT2H3M4.5S` or `-PT0.25S`;
/// zero is `PT0S`.
pub open spec fn iso_text(v: int, u: TimeUnit) -> Seq<char> {
    if v == 0 {
        seq!['P', 'T', '0', 'S']
    } else {
        let a = (if v < 0 { -v } else { v }) as nat;
        let time = iso_time(a, u);
        (if v < 0 { seq!['-', 'P'] } else { seq!['P'] }) + iso_part(a / part_size(u, 0) as nat, 'D')
            + if time.len() > 0 {
            seq!['T'] + time
        } else {
            Seq::empty()
        }
    }
}

fn push_iso_part(s: &mut String, w: u64, letter: &str)
    requires
        letter@.len() == 1,
    ensures
        final(s)@ == old(s)@ + iso_part(w as nat, letter@[0]),
{
    if w != 0 {
        push_digits(s, w);
        s.append(letter);
    }
    assert(s@ =~= old(s)@ + iso_part(w as nat, letter@[0]));
}

fn push_iso_seconds(s: &mut String, w: u64, frac: u64, u: TimeUnit)
    ensures
        final(s)@ == old(s)@ + iso_seconds(w as nat, frac as nat, u),
{
    proof {
        reveal_strlit("S");
        reveal_strlit(".");
    }
    if w != 0 || frac != 0 {
        push_digits(s, w);
        if frac != 0 {
            s.append(".");
            let width: u64 = match u {
                TimeUnit::Nanoseconds => 9,
                TimeUnit::Microseconds => 6,
                TimeUnit::Milliseconds => 3,
            };
            push_fraction(s, frac, width);
        }
        s.append("S");
    }
    assert(s@ =~= old(s)@ + iso_seconds(w as nat, frac as nat, u));
}

fn push_iso_time(s: &mut String, a: u64, u: TimeUnit)
    ensures
        final(s)@ == old(s)@ + iso_time(a as nat, u),
{
    let s0 = part_size_of(u, 0) as u64;
    let s1 = part_size_of(u, 1) as u64;
    let s2 = part_size_of(u, 2) as u64;
    let s3 = part_size_of(u, 3) as u64;
    proof {
        reveal_strlit("H");
        reveal_strlit("M");
        reveal_strlit("S");
        reveal_strlit(".");
    }
    push_iso_part(s, (a % s0) / s1, "H");
    push_iso_part(s, (a % s1) / s2, "M");
    push_iso_seconds(s, (a % s2) / s3, a % s3, u);
    assert(s@ =~= old(s)@ + iso_time(a as nat, u));
}

/// What follows the `P` in the ISO 8601 form of a nonzero magnitude `a`.
pub open spec fn iso_body(a: nat, u: TimeUnit) -> Seq<char> {
    iso_part(a / part_size(u, 0) as nat, 'D') + if iso_time(a, u).len() > 0 {
        seq!['T'] + iso_time(a, u)
    } else {
        Seq::empty()
    }
}

fn push_iso_body(s: &mut String, a: u64, u: TimeUnit)
    ensures
        final(s)@ == old(s)@ + iso_body(a as nat, u),
{
    proof {
        reveal_strlit("D");
        reveal_strlit("T");
    }
    push_iso_part(s, a / (part_size_of(u, 0) as u64), "D");
    let ghost s2 = s@;
    let mut time = String::new();
    push_iso_time(&mut time, a, u);
    assert(time@ =~= iso_time(a as nat, u));
    if time.as_str().unicode_len() > 0 {
        s.append("T");
        s.append(time.as_str());
        assert(s@ =~= s2 + (seq!['T'] + iso_time(a as nat, u)));
    } else {
        assert(s@ =~= s2 + Seq::<char>::empty());
    }
    assert(s@ =~= old(s)@ + iso_body(a as nat, u));
}

/// Appends the ISO 8601 form of `v`.
pub fn push_iso_duration(s: &mut String, v: i64, u: TimeUnit)
    ensures
        final(s)@ == old(s)@ + iso_text(v as int, u),
{
    proof {
        reveal_strlit("PT0S");
        reveal_strlit("-P");
        reveal_strlit("P");
    }
    if v == 0 {
        s.append("PT0S");
        assert(s@ =~= old(s)@ + iso_text(v as int, u));
        return;
    }
    let a: u64 = if v < 0 {
        s.append("-P");
        (-(v as i128)) as u64
    } else {
        s.append("P");
        v as u64
    };
    let ghost s1 = s@;
    push_iso_body(s, a, u);
    assert(iso_text(v as int, u) =~= (if v < 0 { seq!['-', 'P'] } else { seq!['P'] }) + iso_body(a as nat, u));
    assert(s@ =~= old(s)@ + iso_text(v as int, u));
}

/// Whether two strings hold the same characters.
fn str_equal(a: &str, b: &str) -> (res: bool)
    ensures
        res == (a@ == b@),
{
    let n = a.unicode_len();
    if n != b.unicode_len() {
        return false;
    }
    let mut i: usize = 0;
    while i < n
        invariant
            n == a@.len(),
            n == b@.len(),
            i <= n,
            forall|j: int| 0 <= j < i ==> a@[j] == b@[j],
        decreases n - i,
    {
        if a.get_char(i) != b.get_char(i) {
            return false;
        }
        i = i + 1;
    }
    assert(a@ =~= b@);
    true
}

/// The textual forms a duration column can be written in.
pub enum DurationFormat {
    /// ISO 8601, such as `P1DT2H`.
    Iso,
    /// Days to seconds and a sub-second unit, such as `1d 2h`.
    Polars,
}

/// `iso` and `iso:strict` name the ISO form, `polars` the other; anything
/// else is not a format.
pub open spec fn format_of(f: Seq<char>) -> Option<DurationFormat> {
    if f == seq!['i', 's', 'o'] || f == seq!['i', 's', 'o', ':', 's', 't', 'r', 'i', 'c', 't'] {
        Some(DurationFormat::Iso)
    } else if f == seq!['p', 'o', 'l', 'a', 'r', 's'] {
        Some(DurationFormat::Polars)
    } else {
        None
    }
}

/// Reads the name of a format.
pub fn parse_duration_format(format: &str) -> (res: Option<DurationFormat>)
    ensures
        res == format_of(format@),
{
    proof {
        reveal_strlit("iso");
        reveal_strlit("iso:strict");
        reveal_strlit("polars");
        assert("iso"@ =~= seq!['i', 's', 'o']);
        assert("iso:strict"@ =~= seq!['i', 's', 'o', ':', 's', 't', 'r', 'i', 'c', 't']);
        assert("polars"@ =~= seq!['p', 'o', 'l', 'a', 'r', 's']);
    }
    if str_equal(format, "iso") || str_equal(format, "iso:strict") {
        Some(DurationFormat::Iso)
    } else if str_equal(format, "polars") {
        Some(DurationFormat::Polars)
    } else {
        None
    }
}

impl DurationChunked {
    /// The values as text in the named format, nulls staying null. Fails
    /// exactly when `format` is none of `iso`, `iso:strict`, `polars`.
    pub fn to_string(&self, format: &str) -> (res: Result<Vec<Option<String>>, DurationFormatError>)
        ensures
            res.is_err() <==> format_of(format@).is_none(),
            res matches Err(DurationFormatError::InvalidOperation(m)) ==> m@ == format@,
            res matches Ok(out) ==> {
                &&& out@.len() == self.values@.len()
                &&& forall|i: int| 0 <= i < out@.len() ==> match self.values@[i] {
                    None => (#[trigger] out@[i]).is_none(),
                    Some(v) => out@[i] matches Some(t) && t@ == if format_of(format@) == Some(DurationFormat::Iso) {
                        iso_text(v as int, self.spec_unit())
                    } else {
                        polars_text(v as int, self.spec_unit())
                    },
                }
            },
    {
        let kind = match parse_duration_format(format) {
            Some(k) => k,
            None => {
                return Err(DurationFormatError::InvalidOperation(String::from_str(format)));
            },
        };
        let iso = match kind {
            DurationFormat::Iso => true,
            DurationFormat::Polars => false,
        };
        let unit = self.time_unit();
        let mut out: Vec<Option<String>> = Vec::new();
        let mut i: usize = 0;
        while i < self.values.len()
            invariant
                i <= self.values@.len(),
                unit == self.spec_unit(),
                iso == (format_of(format@) == Some(DurationFormat::Iso)),
                out@.len() == i,
                forall|j: int| 0 <= j < i ==> match self.values@[j] {
                    None => (#[trigger] out@[j]).is_none(),
                    Some(v) => out@[j] matches Some(t) && t@ == if iso {
                        iso_text(v as int, self.spec_unit())
                    } else {
                        polars_text(v as int, self.spec_unit())
                    },
                },
            decreases self.values@.len() - i,
        {
            let text = match self.values[i] {
                Some(v) => {
                    let mut s = String::new();
                    if iso {
                        push_iso_duration(&mut s, v, unit);
                    } else {
                        push_polars_duration(&mut s, v, unit);
                    }
                    assert(s@ =~= if iso {
                        iso_text(v as int, self.spec_unit())
                    } else {
                        polars_text(v as int, self.spec_unit())
                    });
                    Some(s)
                },
                None => None,
            };
            out.push(text);
            i = i + 1;
        }
        Ok(out)
    }
}

/// A span counted in `tu`: whole steps, rounded towards zero, or `None`
/// when they do not fit in an `i64`.
pub open spec fn delta_in_unit(d: Delta, tu: TimeUnit) -> Option<i64> {
    match tu {
        TimeUnit::Nanoseconds => fit_i64(d.total_nanos()),
        TimeUnit::Microseconds => fit_i64(tdiv(d.total_nanos(), 1_000)),
        TimeUnit::Milliseconds => fit_i64(tdiv(d.total_nanos(), 1_000_000)),
    }
}

fn delta_value(d: &Delta, tu: TimeUnit) -> (res: i64)
    requires
        d.wf(),
        delta_in_unit(*d, tu).is_some(),
    ensures
        Some(res) == delta_in_unit(*d, tu),
{
    match tu {
        TimeUnit::Nanoseconds => d.num_nanoseconds().unwrap(),
        TimeUnit::Microseconds => d.num_microseconds().unwrap(),
        TimeUnit::Milliseconds => d.num_milliseconds(),
    }
}

impl DurationChunked {
    /// A column of the spans `v`, counted in `tu`.
    pub fn from_duration(name: String, v: Vec<Delta>, tu: TimeUnit) -> (res: Self)
        requires
            forall|i: int| 0 <= i < v@.len() ==> (#[trigger] v@[i]).wf() && delta_in_unit(v@[i], tu).is_some(),
        ensures
            res.name == name,
            res.spec_unit() == tu,
            res.values@.len() == v@.len(),
            forall|i: int| 0 <= i < v@.len() ==> #[trigger] res.values@[i] == delta_in_unit(v@[i], tu),
    {
        let mut values: Vec<Option<i64>> = Vec::new();
        let mut i: usize = 0;
        while i < v.len()
            invariant
                i <= v@.len(),
                values@.len() == i,
                forall|k: int| 0 <= k < v@.len() ==> (#[trigger] v@[k]).wf() && delta_in_unit(v@[k], tu).is_some(),
                forall|k: int| 0 <= k < i ==> #[trigger] values@[k] == delta_in_unit(v@[k], tu),
            decreases v@.len() - i,
        {
            let x = delta_value(&v[i], tu);
            values.push(Some(x));
            i = i + 1;
        }
        DurationChunked { name, values, unit: tu }
    }

    /// A column of the optional spans `v`, counted in `tu`; `None` stays null.
    pub fn from_duration_options(name: String, v: Vec<Option<Delta>>, tu: TimeUnit) -> (res: Self)
        requires
            forall|i: int| 0 <= i < v@.len() ==> (#[trigger] v@[i] matches Some(d) ==> d.wf() && delta_in_unit(d, tu).is_some()),
        ensures
            res.name == name,
            res.spec_unit() == tu,
            res.values@.len() == v@.len(),
            forall|i: int| 0 <= i < v@.len() ==> #[trigger] res.values@[i] == match v@[i] {
                Some(d) => delta_in_unit(d, tu),
                None => None,
            },
    {
        let mut values: Vec<Option<i64>> = Vec::new();
        let mut i: usize = 0;
        while i < v.len()
            invariant
                i <= v@.len(),
                values@.len() == i,
                forall|k: int| 0 <= k < v@.len() ==> (#[trigger] v@[k] matches Some(d) ==> d.wf() && delta_in_unit(d, tu).is_some()),
                forall|k: int| 0 <= k < i ==> #[trigger] values@[k] == match v@[k] {
                    Some(d) => delta_in_unit(d, tu),
                    None => None,
                },
            decreases v@.len() - i,
        {
            let x = match &v[i] {
                Some(d) => Some(delta_value(d, tu)),
                None => None,
            };
            values.push(x);
            i = i + 1;
        }
        DurationChunked { name, values, unit: tu }
    }
}

} // verus!
