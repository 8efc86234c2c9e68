//! Benchmark run identifier helpers.

use vstd::prelude::*;
use crate::text::{chars_of, string_of, push_char, push_all, decimal, zero_padded, decimal_string};

verus! {

/// ASCII letters and digits.
pub open spec fn is_ascii_alnum(c: char) -> bool {
    ('0' <= c && c <= '9') || ('a' <= c && c <= 'z') || ('A' <= c && c <= 'Z')
}

/// The two separator characters kept verbatim in a run name.
pub open spec fn is_name_separator(c: char) -> bool {
    c == '-' || c == '_'
}

/// One step of name sanitizing over `(out, last_was_separator)`: letters and
/// digits are kept; `-`/`_` are kept once after a kept character; any other run
/// of characters becomes a single `-`, and nothing is emitted before the first
/// letter or digit.
pub open spec fn sanitize_step(state: (Seq<char>, bool), ch: char) -> (Seq<char>, bool) {
    let (out, last) = state;
    if is_ascii_alnum(ch) {
        (out.push(ch), false)
    } else if is_name_separator(ch) && out.len() > 0 && !last {
        (out.push(ch), true)
    } else if out.len() > 0 && !last {
        (out.push('-'), true)
    } else {
        (out, last)
    }
}

/// Sanitizing state after reading all of `s`.
pub open spec fn sanitize_fold(s: Seq<char>) -> (Seq<char>, bool)
    decreases s.len(),
{
    if s.len() == 0 {
        (Seq::empty(), false)
    } else {
        sanitize_step(sanitize_fold(s.drop_last()), s.last())
    }
}

/// `s` with trailing `-` and `_` removed.
pub open spec fn strip_trailing_separators(s: Seq<char>) -> Seq<char>
    decreases s.len(),
{
    if s.len() > 0 && is_name_separator(s.last()) {
        strip_trailing_separators(s.drop_last())
    } else {
        s
    }
}

/// The file-name-safe form of a run name (`run` when nothing usable is left).
pub open spec fn sanitized_run_name(name: Seq<char>) -> Seq<char> {
    let stripped = strip_trailing_separators(sanitize_fold(name).0);
    if stripped.len() == 0 {
        seq!['r', 'u', 'n']
    } else {
        stripped
    }
}

/// A name that is safe as a file-name component: non-empty, only ASCII letters,
/// digits, `-` and `_`, starting and ending with a letter or digit, and with no
/// two separators in a row.
pub open spec fn is_safe_run_name(s: Seq<char>) -> bool {
    &&& s.len() > 0
    &&& forall|i: int| 0 <= i < s.len() ==> is_ascii_alnum(#[trigger] s[i]) || is_name_separator(s[i])
    &&& is_ascii_alnum(s[0])
    &&& is_ascii_alnum(s.last())
    &&& forall|i: int| 0 <= i < s.len() - 1 && is_name_separator(#[trigger] s[i]) ==> is_ascii_alnum(s[i + 1])
}

/// The shape the sanitizing fold keeps: only safe characters, a letter or
/// digit first, no two separators in a row, and the flag telling whether the
/// last character is a separator.
pub open spec fn fold_shape(out: Seq<char>, last: bool) -> bool {
    &&& forall|i: int| 0 <= i < out.len() ==> is_ascii_alnum(#[trigger] out[i]) || is_name_separator(out[i])
    &&& out.len() > 0 ==> is_ascii_alnum(out[0])
    &&& forall|i: int| 0 <= i < out.len() - 1 && is_name_separator(#[trigger] out[i]) ==> is_ascii_alnum(out[i + 1])
    &&& last == (out.len() > 0 && is_name_separator(out.last()))
}

proof fn lemma_strip_shape(out: Seq<char>, last: bool)
    requires
        fold_shape(out, last),
    ensures
        strip_trailing_separators(out).len() > 0 ==> is_safe_run_name(strip_trailing_separators(out)),
        strip_trailing_separators(out).len() <= out.len(),
        strip_trailing_separators(out) == out.take(strip_trailing_separators(out).len() as int),
    decreases out.len(),
{
    if out.len() > 0 && is_name_separator(out.last()) {
        let d = out.drop_last();
        assert(fold_shape(d, d.len() > 0 && is_name_separator(d.last())));
        lemma_strip_shape(d, d.len() > 0 && is_name_separator(d.last()));
        let r = strip_trailing_separators(d);
        assert(r == out.take(r.len() as int));
    } else {
        assert(out.take(out.len() as int) == out);
    }
}

/// The ASCII letters and digits of `s`, in order.
pub open spec fn alnums(s: Seq<char>) -> Seq<char>
    decreases s.len(),
{
    if s.len() == 0 {
        Seq::empty()
    } else {
        alnums(s.drop_last()) + if is_ascii_alnum(s.last()) {
            seq![s.last()]
        } else {
            Seq::empty()
        }
    }
}

proof fn lemma_alnums_push(s: Seq<char>, c: char)
    ensures
        alnums(s.push(c)) == alnums(s) + if is_ascii_alnum(c) { seq![c] } else { Seq::<char>::empty() },
{
    assert(s.push(c).drop_last() =~= s);
}

/// Sanitizing keeps every letter and digit, in order.
proof fn lemma_fold_keeps_alnums(s: Seq<char>)
    ensures
        alnums(sanitize_fold(s).0) == alnums(s),
    decreases s.len(),
{
    if s.len() > 0 {
        lemma_fold_keeps_alnums(s.drop_last());
        let (out, last) = sanitize_fold(s.drop_last());
        let c = s.last();
        lemma_alnums_push(out, c);
        lemma_alnums_push(out, '-');
    }
}

/// Dropping trailing separators keeps every letter and digit.
proof fn lemma_strip_keeps_alnums(s: Seq<char>)
    ensures
        alnums(strip_trailing_separators(s)) == alnums(s),
    decreases s.len(),
{
    if s.len() > 0 && is_name_separator(s.last()) {
        lemma_strip_keeps_alnums(s.drop_last());
        assert(alnums(s) =~= alnums(s.drop_last()));
    }
}

/// A text without letters or digits has none anywhere.
proof fn lemma_no_alnums(s: Seq<char>)
    requires
        alnums(s).len() == 0,
    ensures
        forall|i: int| 0 <= i < s.len() ==> !is_ascii_alnum(#[trigger] s[i]),
    decreases s.len(),
{
    if s.len() > 0 {
        lemma_no_alnums(s.drop_last());
        assert forall|i: int| 0 <= i < s.len() implies !is_ascii_alnum(#[trigger] s[i]) by {
            if i < s.len() - 1 {
                assert(s[i] == s.drop_last()[i]);
            }
        }
    }
}

/// Reduces a run tag to a file-name-safe form: ASCII letters and digits are
/// kept, a `-` or `_` is kept after a kept character, any other run of
/// characters collapses to one `-`, trailing separators are dropped, and an
/// empty result becomes `run`.
pub fn sanitize_run_name(name: &str) -> (r: String)
    ensures
        r@ == sanitized_run_name(name@),
        is_safe_run_name(r@),
        alnums(name@).len() > 0 ==> alnums(r@) == alnums(name@),
        alnums(name@).len() == 0 ==> r@ == seq!['r', 'u', 'n'],
{
    let v = chars_of(name);
    let mut out: Vec<char> = Vec::new();
    let mut last = false;
    for i in 0..v.len()
        invariant
            v@ == name@,
            (out@, last) == sanitize_fold(v@.take(i as int)),
            fold_shape(out@, last),
    {
        let ch = v[i];
        assert(v@.take(i + 1).drop_last() == v@.take(i as int));
        assert(v@.take(i + 1).last() == ch);
        let alnum = ('0' <= ch && ch <= '9') || ('a' <= ch && ch <= 'z') || ('A' <= ch && ch <= 'Z');
        if alnum {
            out.push(ch);
            last = false;
        } else if (ch == '-' || ch == '_') && out.len() > 0 && !last {
            out.push(ch);
            last = true;
        } else if out.len() > 0 && !last {
            out.push('-');
            last = true;
        }
    }
    assert(v@.take(v.len() as int) == v@);
    proof {
        lemma_strip_shape(out@, last);
        lemma_fold_keeps_alnums(name@);
        lemma_strip_keeps_alnums(out@);
        if alnums(name@).len() == 0 {
            lemma_no_alnums(out@);
        }
    }
    let ghost full = out@;
    while out.len() > 0 && (out[out.len() - 1] == '-' || out[out.len() - 1] == '_')
        invariant
            strip_trailing_separators(full) == strip_trailing_separators(out@),
        decreases out.len(),
    {
        out.pop();
    }
    if out.len() == 0 {
        let run = vec!['r', 'u', 'n'];
        let s = string_of(&run);
        assert(s@ == seq!['r', 'u', 'n']);
        proof {
            let s3 = seq!['r', 'u', 'n'];
            assert(is_ascii_alnum(s3[0]) && is_ascii_alnum(s3[1]) && is_ascii_alnum(s3[2]));
            assert forall|i: int| 0 <= i < s3.len() implies is_ascii_alnum(#[trigger] s3[i]) || is_name_separator(s3[i]) by {
            }
        }
        s
    } else {
        assert(strip_trailing_separators(out@) == out@);
        string_of(&out)
    }
}

/// Gregorian leap years.
pub open spec fn is_leap_year(y: nat) -> bool {
    y % 4 == 0 && (y % 100 != 0 || y % 400 == 0)
}

/// Days in year `y`.
pub open spec fn year_days(y: nat) -> nat {
    if is_leap_year(y) { 366 } else { 365 }
}

/// Days in month `m` (1 to 12) of year `y`.
pub open spec fn month_days(y: nat, m: nat) -> nat {
    if m == 2 {
        if is_leap_year(y) { 29 } else { 28 }
    } else if m == 4 || m == 6 || m == 9 || m == 11 {
        30
    } else {
        31
    }
}

/// Days from 1970-01-01 to the first day of year `y` (for `y >= 1970`).
pub open spec fn days_before_year(y: nat) -> nat
    decreases y,
{
    if y <= 1970 {
        0
    } else {
        days_before_year((y - 1) as nat) + year_days((y - 1) as nat)
    }
}

/// Days from the first of January to the first day of month `m` in year `y`.
pub open spec fn days_before_month(y: nat, m: nat) -> nat
    decreases m,
{
    if m <= 1 {
        0
    } else {
        days_before_month(y, (m - 1) as nat) + month_days(y, (m - 1) as nat)
    }
}

/// A calendar date this module can print: a four-digit year from 1970.
pub open spec fn is_valid_date(y: nat, m: nat, d: nat) -> bool {
    1970 <= y <= 9999 && 1 <= m <= 12 && 1 <= d <= month_days(y, m)
}

/// Days from 1970-01-01 to the date `y-m-d`.
pub open spec fn epoch_day(y: nat, m: nat, d: nat) -> nat {
    days_before_year(y) + days_before_month(y, m) + (d - 1) as nat
}

/// The twelve months of year `y` make up the whole year.
proof fn lemma_months_fill_year(y: nat)
    ensures
        days_before_month(y, 13) == year_days(y),
{
    reveal_with_fuel(days_before_month, 13);
}

/// Later months start later, and a month ends before the next one starts.
proof fn lemma_month_monotone(y: nat, m1: nat, m2: nat)
    requires
        1 <= m1 < m2 <= 13,
    ensures
        days_before_month(y, m1) + month_days(y, m1) <= days_before_month(y, m2),
    decreases m2 - m1,
{
    if m2 > m1 + 1 {
        lemma_month_monotone(y, m1, (m2 - 1) as nat);
    }
}

/// Later years start later, and a year ends before the next one starts.
proof fn lemma_year_monotone(y1: nat, y2: nat)
    requires
        1970 <= y1 < y2,
    ensures
        days_before_year(y1) + year_days(y1) <= days_before_year(y2),
    decreases y2 - y1,
{
    if y2 > y1 + 1 {
        lemma_year_monotone(y1, (y2 - 1) as nat);
    }
}

/// A valid date falls inside its year.
proof fn lemma_date_in_year(y: nat, m: nat, d: nat)
    requires
        is_valid_date(y, m, d),
    ensures
        days_before_year(y) <= epoch_day(y, m, d) < days_before_year(y) + year_days(y),
{
    lemma_months_fill_year(y);
    if m < 13 {
        lemma_month_monotone(y, m, 13);
    }
}

/// Distinct valid dates have distinct epoch days.
proof fn lemma_epoch_day_injective(y1: nat, m1: nat, d1: nat, y2: nat, m2: nat, d2: nat)
    requires
        is_valid_date(y1, m1, d1),
        is_valid_date(y2, m2, d2),
        epoch_day(y1, m1, d1) == epoch_day(y2, m2, d2),
    ensures
        y1 == y2 && m1 == m2 && d1 == d2,
{
    lemma_date_in_year(y1, m1, d1);
    lemma_date_in_year(y2, m2, d2);
    if y1 < y2 {
        lemma_year_monotone(y1, y2);
    } else if y2 < y1 {
        lemma_year_monotone(y2, y1);
    }
    assert(y1 == y2);
    if m1 < m2 {
        lemma_month_monotone(y1, m1, m2);
    } else if m2 < m1 {
        lemma_month_monotone(y1, m2, m1);
    }
}

/// `YYYYMMDD-HHMMSS` for the given fields.
pub open spec fn compact_timestamp(y: nat, m: nat, d: nat, hh: nat, mm: nat, ss: nat) -> Seq<char> {
    zero_padded(y, 4) + zero_padded(m, 2) + zero_padded(d, 2) + seq!['-'] + zero_padded(hh, 2)
        + zero_padded(mm, 2) + zero_padded(ss, 2)
}

/// The compact UTC timestamp of `secs` seconds after the Unix epoch, when its
/// year has four digits.
pub open spec fn is_compact_utc(secs: nat, text: Seq<char>) -> bool {
    exists|y: nat, m: nat, d: nat|
        #![trigger epoch_day(y, m, d)]
        is_valid_date(y, m, d) && epoch_day(y, m, d) == secs / 86400 && text == compact_timestamp(
            y,
            m,
            d,
            (secs % 86400) / 3600,
            (secs % 3600) / 60,
            secs % 60,
        )
}

/// The first second of year 10000, past which a year no longer has four digits.
pub open spec fn compact_utc_limit() -> nat {
    days_before_year(10000) * 86400
}

/// Appends `n` in decimal, left-padded with zeros to `width` digits.
pub fn push_zero_padded(s: &mut String, n: u64, width: usize)
    ensures
        final(s)@ == old(s)@ + zero_padded(n as nat, width as nat),
{
    let digits = chars_of(decimal_string(n).as_str());
    if digits.len() < width {
        let pad = width - digits.len();
        let mut k: usize = 0;
        while k < pad
            invariant
                k <= pad,
                s@ == old(s)@ + Seq::new(k as nat, |i: int| '0'),
            decreases pad - k,
        {
            push_char(s, '0');
            assert(Seq::new((k + 1) as nat, |i: int| '0') == Seq::new(k as nat, |i: int| '0').push('0'));
            k = k + 1;
        }
        push_all(s, &digits);
        assert(old(s)@ + Seq::new(pad as nat, |i: int| '0') + decimal(n as nat) == old(s)@ + (Seq::new(
            (width - decimal(n as nat).len()) as nat,
            |i: int| '0',
        ) + decimal(n as nat)));
    } else {
        push_all(s, &digits);
    }
}

/// Days in year `y`.
fn year_length(y: u64) -> (n: u64)
    ensures
        n == year_days(y as nat),
{
    if y % 4 == 0 && (y % 100 != 0 || y % 400 == 0) { 366 } else { 365 }
}

/// Days in month `m` of year `y`.
fn month_length(y: u64, m: u64) -> (n: u64)
    ensures
        n == month_days(y as nat, m as nat),
{
    if m == 2 {
        if y % 4 == 0 && (y % 100 != 0 || y % 400 == 0) { 29 } else { 28 }
    } else if m == 4 || m == 6 || m == 9 || m == 11 {
        30
    } else {
        31
    }
}

/// The calendar date (year, month, day) of `epoch_seconds` in UTC; `None`
/// from year 10000 on.
fn civil_date(epoch_seconds: u64) -> (r: Option<(u64, u64, u64)>)
    ensures
        r is Some <==> (epoch_seconds as nat) < compact_utc_limit(),
        r matches Some(ymd) ==> is_valid_date(ymd.0 as nat, ymd.1 as nat, ymd.2 as nat) && epoch_day(
            ymd.0 as nat,
            ymd.1 as nat,
            ymd.2 as nat,
        ) == (epoch_seconds as nat) / 86400 && ymd.0 <= 9999 && ymd.1 <= 12 && ymd.2 <= 31,
{
    let total_days = epoch_seconds / 86400;
    let mut days = total_days;
    let mut y: u64 = 1970;
    while days >= year_length(y)
        invariant
            1970 <= y <= 9999,
            total_days == (epoch_seconds as nat) / 86400,
            days_before_year(y as nat) + days == total_days,
        decreases total_days - days_before_year(y as nat),
    {
        days = days - year_length(y);
        if y == 9999 {
            proof {
                assert(days_before_year(10000) == days_before_year(9999) + year_days(9999));
                let l = days_before_year(10000);
                let e = epoch_seconds as nat;
                assert(e / 86400 >= l);
                assert(e >= l * 86400) by (nonlinear_arith)
                    requires
                        e / 86400 >= l,
                ;
            }
            return None;
        }
        y = y + 1;
    }
    proof {
        lemma_year_monotone(y as nat, 10000);
        let l = days_before_year(10000);
        let e = epoch_seconds as nat;
        assert(e / 86400 < l);
        assert(e < l * 86400) by (nonlinear_arith)
            requires
                e / 86400 < l,
        ;
    }
    let mut m: u64 = 1;
    proof {
        lemma_months_fill_year(y as nat);
    }
    while days >= month_length(y, m)
        invariant
            1970 <= y <= 9999,
            1 <= m <= 12,
            days_before_year(y as nat) + days_before_month(y as nat, m as nat) + days == total_days,
            days_before_month(y as nat, m as nat) + days < year_days(y as nat),
            days_before_month(y as nat, 13) == year_days(y as nat),
        decreases 12 - m,
    {
        days = days - month_length(y, m);
        proof {
            if m == 12 {
                assert(days_before_month(y as nat, 13) == days_before_month(y as nat, 12) + month_days(y as nat, 12));
                assert(false);
            }
        }
        m = m + 1;
    }
    let d = days + 1;
    proof {
        assert(is_valid_date(y as nat, m as nat, d as nat));
        assert(epoch_day(y as nat, m as nat, d as nat) == (epoch_seconds as nat) / 86400);
    }
    Some((y, m, d))
}

/// Formats `epoch_seconds` as the compact UTC timestamp `YYYYMMDD-HHMMSS`;
/// `None` from year 10000 on, where the year no longer has four digits.
pub fn format_compact_utc(epoch_seconds: u64) -> (r: Option<String>)
    ensures
        r is Some <==> (epoch_seconds as nat) < compact_utc_limit(),
        r matches Some(text) ==> is_compact_utc(epoch_seconds as nat, text@),
{
    match civil_date(epoch_seconds) {
        None => None,
        Some((y, m, d)) => {
            let mut out = String::new();
            push_zero_padded(&mut out, y, 4);
            push_zero_padded(&mut out, m, 2);
            push_zero_padded(&mut out, d, 2);
            push_char(&mut out, '-');
            push_zero_padded(&mut out, (epoch_seconds % 86400) / 3600, 2);
            push_zero_padded(&mut out, (epoch_seconds % 3600) / 60, 2);
            push_zero_padded(&mut out, epoch_seconds % 60, 2);
            proof {
                assert(out@ == compact_timestamp(
                    y as nat,
                    m as nat,
                    d as nat,
                    ((epoch_seconds as nat) % 86400) / 3600,
                    ((epoch_seconds as nat) % 3600) / 60,
                    (epoch_seconds as nat) % 60,
                ));
            }
            Some(out)
        },
    }
}

/// `YYYY-MM-DDTHH:MM:SSZ` for the given fields.
pub open spec fn rfc3339_timestamp(y: nat, m: nat, d: nat, hh: nat, mm: nat, ss: nat) -> Seq<char> {
    zero_padded(y, 4) + seq!['-'] + zero_padded(m, 2) + seq!['-'] + zero_padded(d, 2) + seq!['T'] + zero_padded(hh, 2)
        + seq![':'] + zero_padded(mm, 2) + seq![':'] + zero_padded(ss, 2) + seq!['Z']
}

/// The RFC 3339 UTC timestamp of `secs` seconds after the Unix epoch, when
/// its year has four digits.
pub open spec fn is_rfc3339_utc(secs: nat, text: Seq<char>) -> bool {
    exists|y: nat, m: nat, d: nat|
        #![trigger epoch_day(y, m, d)]
        is_valid_date(y, m, d) && epoch_day(y, m, d) == secs / 86400 && text == rfc3339_timestamp(
            y,
            m,
            d,
            (secs % 86400) / 3600,
            (secs % 3600) / 60,
            secs % 60,
        )
}

/// A moment has one timestamp: the compact and the RFC 3339 renderings of a
/// number of seconds are each determined by it.
pub proof fn utc_timestamps_are_unique(secs: nat, a: Seq<char>, b: Seq<char>)
    ensures
        is_compact_utc(secs, a) && is_compact_utc(secs, b) ==> a == b,
        is_rfc3339_utc(secs, a) && is_rfc3339_utc(secs, b) ==> a == b,
{
    if is_compact_utc(secs, a) && is_compact_utc(secs, b) {
        let (y1, m1, d1) = choose|y: nat, m: nat, d: nat|
            #![trigger epoch_day(y, m, d)]
            is_valid_date(y, m, d) && epoch_day(y, m, d) == secs / 86400 && a == compact_timestamp(
                y,
                m,
                d,
                (secs % 86400) / 3600,
                (secs % 3600) / 60,
                secs % 60,
            );
        let (y2, m2, d2) = choose|y: nat, m: nat, d: nat|
            #![trigger epoch_day(y, m, d)]
            is_valid_date(y, m, d) && epoch_day(y, m, d) == secs / 86400 && b == compact_timestamp(
                y,
                m,
                d,
                (secs % 86400) / 3600,
                (secs % 3600) / 60,
                secs % 60,
            );
        lemma_epoch_day_injective(y1, m1, d1, y2, m2, d2);
    }
    if is_rfc3339_utc(secs, a) && is_rfc3339_utc(secs, b) {
        let (y1, m1, d1) = choose|y: nat, m: nat, d: nat|
            #![trigger epoch_day(y, m, d)]
            is_valid_date(y, m, d) && epoch_day(y, m, d) == secs / 86400 && a == rfc3339_timestamp(
                y,
                m,
                d,
                (secs % 86400) / 3600,
                (secs % 3600) / 60,
                secs % 60,
            );
        let (y2, m2, d2) = choose|y: nat, m: nat, d: nat|
            #![trigger epoch_day(y, m, d)]
            is_valid_date(y, m, d) && epoch_day(y, m, d) == secs / 86400 && b == rfc3339_timestamp(
                y,
                m,
                d,
                (secs % 86400) / 3600,
                (secs % 3600) / 60,
                secs % 60,
            );
        lemma_epoch_day_injective(y1, m1, d1, y2, m2, d2);
    }
}

/// The timestamp a run records when its time cannot be rendered: the epoch.
pub open spec fn epoch_timestamp() -> Seq<char> {
    rfc3339_timestamp(1970, 1, 1, 0, 0, 0)
}

/// The RFC 3339 UTC timestamp (`YYYY-MM-DDTHH:MM:SSZ`) a run records for
/// `epoch_seconds`; the epoch itself from year 10000 on, where the year no
/// longer has four digits.
pub fn run_timestamp(epoch_seconds: u64) -> (r: String)
    ensures
        (epoch_seconds as nat) < compact_utc_limit() ==> is_rfc3339_utc(epoch_seconds as nat, r@),
        (epoch_seconds as nat) >= compact_utc_limit() ==> r@ == epoch_timestamp(),
{
    let (y, m, d, hh, mm, ss) = match civil_date(epoch_seconds) {
        Some((y, m, d)) => (y, m, d, (epoch_seconds % 86400) / 3600, (epoch_seconds % 3600) / 60, epoch_seconds % 60),
        None => (1970, 1, 1, 0, 0, 0),
    };
    let mut out = String::new();
    push_zero_padded(&mut out, y, 4);
    push_char(&mut out, '-');
    push_zero_padded(&mut out, m, 2);
    push_char(&mut out, '-');
    push_zero_padded(&mut out, d, 2);
    push_char(&mut out, 'T');
    push_zero_padded(&mut out, hh, 2);
    push_char(&mut out, ':');
    push_zero_padded(&mut out, mm, 2);
    push_char(&mut out, ':');
    push_zero_padded(&mut out, ss, 2);
    push_char(&mut out, 'Z');
    proof {
        assert(out@ == rfc3339_timestamp(y as nat, m as nat, d as nat, hh as nat, mm as nat, ss as nat));
    }
    out
}

/// The placeholder used when a timestamp cannot be rendered.
pub open spec fn unknown_time() -> Seq<char> {
    seq!['u', 'n', 'k', 'n', 'o', 'w', 'n', '-', 't', 'i', 'm', 'e']
}

/// The shape of a run identifier: `<name>_<timestamp>_<suffix>`.
pub open spec fn run_id_parts(name: Seq<char>, ts: Seq<char>, suffix: Seq<char>) -> Seq<char> {
    sanitized_run_name(name) + seq!['_'] + ts + seq!['_'] + suffix
}

/// Builds a run identifier of the form `<tag|run>_<ts>_<suffix>`: the
/// sanitized run tag (or `run` when nothing usable is left) followed by the
/// compact UTC timestamp of `epoch_seconds` (`unknown-time` past year 9999)
/// and the injected suffix, so two runs that share a tag and second still map
/// to distinct storage files when their suffixes differ.
pub fn generate_run_id(name: &str, epoch_seconds: u64, suffix: &str) -> (r: String)
    ensures
        exists|ts: Seq<char>|
            #![trigger run_id_parts(name@, ts, suffix@)]
            r@ == run_id_parts(name@, ts, suffix@) && (if (epoch_seconds as nat) < compact_utc_limit() {
                is_compact_utc(epoch_seconds as nat, ts)
            } else {
                ts == unknown_time()
            }),
{
    let mut out = sanitize_run_name(name);
    push_char(&mut out, '_');
    let ts = match format_compact_utc(epoch_seconds) {
        Some(t) => t,
        None => {
            let v = vec!['u', 'n', 'k', 'n', 'o', 'w', 'n', '-', 't', 'i', 'm', 'e'];
            string_of(&v)
        },
    };
    out.append(ts.as_str());
    push_char(&mut out, '_');
    out.append(suffix);
    assert(out@ == run_id_parts(name@, ts@, suffix@));
    out
}

/// A lowercase hexadecimal digit.
pub open spec fn is_lower_hex(c: char) -> bool {
    ('0' <= c && c <= '9') || ('a' <= c && c <= 'f')
}

/// A fresh random (version 4) UUID in its simple form: 32 lowercase
/// hexadecimal digits (`uuid::Uuid::new_v4().simple()`, formatted). Nothing
/// else is stated of it: the digits are random.
#[verifier::external_body]
fn uuid_v4_simple() -> (r: String)
    ensures
        r@.len() == 32,
        forall|i: int| 0 <= i < r@.len() ==> is_lower_hex(#[trigger] r@[i]),
{
    uuid::Uuid::new_v4().simple().to_string()
}

/// The default run-id suffix: the first 8 characters of a random UUID v4,
/// eight lowercase hexadecimal digits.
pub fn random_id_suffix() -> (r: String)
    ensures
        r@.len() == 8,
        forall|i: int| 0 <= i < r@.len() ==> is_lower_hex(#[trigger] r@[i]),
{
    let u = chars_of(uuid_v4_simple().as_str());
    let head = crate::text::chars_range(&u, 0, 8);
    string_of(&head)
}

} // verus!
