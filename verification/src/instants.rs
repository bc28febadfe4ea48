//! UTC instants spelled the way provider-limit records store them:
//! `YYYY-MM-DDTHH:MM:SSZ`, whole seconds after the Unix epoch.
use vstd::prelude::*;
use crate::text::{chars_of, digit_char};

verus! {

// ---------------------------------------------------------------------------
// The proleptic Gregorian calendar from 1970
// ---------------------------------------------------------------------------

/// Leap years: every fourth, except centuries not divisible by 400.
pub open spec fn is_leap(y: nat) -> bool {
    (y % 4 == 0 && y % 100 != 0) || y % 400 == 0
}

pub open spec fn year_days(y: nat) -> nat {
    if is_leap(y) {
        366
    } else {
        365
    }
}

/// Days in month `m` (1 to 12) of year `y`.
pub open spec fn month_days(y: nat, m: nat) -> nat {
    if m == 2 {
        if is_leap(y) {
            29
        } else {
            28
        }
    } else if m == 4 || m == 6 || m == 9 || m == 11 {
        30
    } else {
        31
    }
}

/// Days from 1970-01-01 to the first day of year `y`.
pub open spec fn days_before_year(y: nat) -> nat
    decreases y,
{
    if y <= 1970 {
        0
    } else {
        days_before_year((y - 1) as nat) + year_days((y - 1) as nat)
    }
}

/// Days from the first of the year to the first of month `m`.
pub open spec fn days_before_month(y: nat, m: nat) -> nat
    decreases m,
{
    if m <= 1 {
        0
    } else {
        days_before_month(y, (m - 1) as nat) + month_days(y, (m - 1) as nat)
    }
}

/// A calendar time this module can spell: years 1970 to 9999.
pub open spec fn valid_civil(y: nat, mo: nat, d: nat, h: nat, mi: nat, s: nat) -> bool {
    &&& 1970 <= y <= 9999
    &&& 1 <= mo <= 12
    &&& 1 <= d <= month_days(y, mo)
    &&& h < 24
    &&& mi < 60
    &&& s < 60
}

/// Seconds from the Unix epoch to a calendar time.
pub open spec fn epoch_of(y: nat, mo: nat, d: nat, h: nat, mi: nat, s: nat) -> nat {
    ((days_before_year(y) + days_before_month(y, mo) + d - 1) * 86400 + h * 3600 + mi * 60
        + s) as nat
}

/// The year holding day `days` counted from the first of year `y`, and the
/// day within it.
pub open spec fn split_years(days: nat, y: nat) -> (nat, nat)
    decreases days,
{
    if days < year_days(y) {
        (y, days)
    } else {
        split_years((days - year_days(y)) as nat, y + 1)
    }
}

/// The month holding day `days` counted from the first of month `m`, and the
/// day within it.
pub open spec fn split_months(days: nat, y: nat, m: nat) -> (nat, nat)
    decreases 12 - m,
{
    if m >= 12 || days < month_days(y, m) {
        (m, days)
    } else {
        split_months((days - month_days(y, m)) as nat, y, m + 1)
    }
}

/// The calendar time of `e` seconds after the epoch:
/// `(year, month, day, hour, minute, second)`.
pub open spec fn civil_of(e: nat) -> (nat, nat, nat, nat, nat, nat) {
    let (y, r) = split_years(e / 86400, 1970);
    let (m, dd) = split_months(r, y, 1);
    let t = e % 86400;
    (y, m, dd + 1, t / 3600, (t % 3600) / 60, t % 60)
}

// ---------------------------------------------------------------------------
// Spelling
// ---------------------------------------------------------------------------

pub open spec fn pad2(n: nat) -> Seq<char> {
    seq![digit_char((n / 10) % 10), digit_char(n % 10)]
}

pub open spec fn pad4(n: nat) -> Seq<char> {
    seq![
        digit_char((n / 1000) % 10),
        digit_char((n / 100) % 10),
        digit_char((n / 10) % 10),
        digit_char(n % 10),
    ]
}

/// `YYYY-MM-DDTHH:MM:SSZ`.
pub open spec fn utc_text(y: nat, mo: nat, d: nat, h: nat, mi: nat, s: nat) -> Seq<char> {
    pad4(y) + seq!['-'] + pad2(mo) + seq!['-'] + pad2(d) + seq!['T'] + pad2(h) + seq![':'] + pad2(
        mi,
    ) + seq![':'] + pad2(s) + seq!['Z']
}

/// The RFC 3339 spelling, to the second and in UTC, of `e` seconds after
/// the epoch.
pub open spec fn deadline_spec(e: nat) -> Seq<char> {
    let (y, mo, d, h, mi, s) = civil_of(e);
    utc_text(y, mo, d, h, mi, s)
}

/// The last second of year 9999.
pub const LAST_SPELLED_SECOND: u64 = 253402300799;

// ---------------------------------------------------------------------------
// Reading
// ---------------------------------------------------------------------------

/// The value of an ASCII digit.
pub open spec fn digit_value(c: char) -> Option<nat> {
    if c == '0' {
        Some(0)
    } else if c == '1' {
        Some(1)
    } else if c == '2' {
        Some(2)
    } else if c == '3' {
        Some(3)
    } else if c == '4' {
        Some(4)
    } else if c == '5' {
        Some(5)
    } else if c == '6' {
        Some(6)
    } else if c == '7' {
        Some(7)
    } else if c == '8' {
        Some(8)
    } else if c == '9' {
        Some(9)
    } else {
        None
    }
}

/// The two-digit number at `i`.
pub open spec fn two_at(s: Seq<char>, i: int) -> Option<nat> {
    match (digit_value(s[i]), digit_value(s[i + 1])) {
        (Some(a), Some(b)) => Some(10 * a + b),
        _ => None,
    }
}

/// The four-digit number at `i`.
pub open spec fn four_at(s: Seq<char>, i: int) -> Option<nat> {
    match (two_at(s, i), two_at(s, i + 2)) {
        (Some(a), Some(b)) => Some(100 * a + b),
        _ => None,
    }
}

/// The fields of `YYYY-MM-DDTHH:MM:SSZ`, when `s` has that shape.
pub open spec fn utc_fields(s: Seq<char>) -> Option<(nat, nat, nat, nat, nat, nat)> {
    if s.len() == 20 && s[4] == '-' && s[7] == '-' && s[10] == 'T' && s[13] == ':' && s[16]
        == ':' && s[19] == 'Z' {
        match (four_at(s, 0), two_at(s, 5), two_at(s, 8), two_at(s, 11), two_at(s, 14), two_at(s, 17)) {
            (Some(y), Some(mo), Some(d), Some(h), Some(mi), Some(se)) => Some((y, mo, d, h, mi, se)),
            _ => None,
        }
    } else {
        None
    }
}

/// The instant a `YYYY-MM-DDTHH:MM:SSZ` spelling names, when it names a real
/// calendar time from 1970 to 9999.
pub open spec fn parse_utc_spec(s: Seq<char>) -> Option<nat> {
    match utc_fields(s) {
        Some((y, mo, d, h, mi, se)) => if valid_civil(y, mo, d, h, mi, se) {
            Some(epoch_of(y, mo, d, h, mi, se))
        } else {
            None
        },
        None => None,
    }
}

// ---------------------------------------------------------------------------
// Executable
// ---------------------------------------------------------------------------

fn leap(y: u64) -> (r: bool)
    ensures
        r == is_leap(y as nat),
{
    (y % 4 == 0 && y % 100 != 0) || y % 400 == 0
}

fn days_in_year(y: u64) -> (n: u64)
    ensures
        n == year_days(y as nat),
{
    if leap(y) {
        366
    } else {
        365
    }
}

fn days_in_month(y: u64, m: u64) -> (n: u64)
    ensures
        n == month_days(y as nat, m as nat),
{
    if m == 2 {
        if leap(y) {
            29
        } else {
            28
        }
    } else if m == 4 || m == 6 || m == 9 || m == 11 {
        30
    } else {
        31
    }
}

fn digit(d: u64) -> (c: char)
    requires
        d < 10,
    ensures
        c == digit_char(d as nat),
{
    if d == 0 {
        '0'
    } else if d == 1 {
        '1'
    } else if d == 2 {
        '2'
    } else if d == 3 {
        '3'
    } else if d == 4 {
        '4'
    } else if d == 5 {
        '5'
    } else if d == 6 {
        '6'
    } else if d == 7 {
        '7'
    } else if d == 8 {
        '8'
    } else {
        '9'
    }
}

fn push_pad2(out: &mut String, n: u64)
    ensures
        final(out)@ == old(out)@ + pad2(n as nat),
{
    out.push(digit((n / 10) % 10));
    out.push(digit(n % 10));
    assert(final(out)@ =~= old(out)@ + pad2(n as nat));
}

fn push_pad4(out: &mut String, n: u64)
    ensures
        final(out)@ == old(out)@ + pad4(n as nat),
{
    out.push(digit((n / 1000) % 10));
    out.push(digit((n / 100) % 10));
    out.push(digit((n / 10) % 10));
    out.push(digit(n % 10));
    assert(final(out)@ =~= old(out)@ + pad4(n as nat));
}

/// `epoch` seconds after the Unix epoch, in RFC 3339 to the second and in
/// UTC, as provider-limit records spell an instant.
pub fn deadline(epoch: u64) -> (out: String)
    requires
        epoch <= LAST_SPELLED_SECOND,
    ensures
        out@ == deadline_spec(epoch as nat),
{
    let days0 = epoch / 86400;
    let mut days = days0;
    let mut y: u64 = 1970;
    while days >= days_in_year(y)
        invariant
            1970 <= y,
            days <= days0,
            (y - 1970) * 365 <= days0 - days,
            days0 <= LAST_SPELLED_SECOND / 86400,
            split_years(days as nat, y as nat) == split_years(days0 as nat, 1970),
        decreases days,
    {
        days = days - days_in_year(y);
        y = y + 1;
    }
    let mut m: u64 = 1;
    let mut rest = days;
    while m < 12 && rest >= days_in_month(y, m)
        invariant
            1 <= m <= 12,
            rest <= days,
            split_months(rest as nat, y as nat, m as nat) == split_months(days as nat, y as nat, 1),
        decreases 12 - m,
    {
        rest = rest - days_in_month(y, m);
        m = m + 1;
    }
    let t = epoch % 86400;
    let mut out = String::new();
    push_pad4(&mut out, y);
    out.push('-');
    push_pad2(&mut out, m);
    out.push('-');
    push_pad2(&mut out, rest + 1);
    out.push('T');
    push_pad2(&mut out, t / 3600);
    out.push(':');
    push_pad2(&mut out, (t % 3600) / 60);
    out.push(':');
    push_pad2(&mut out, t % 60);
    out.push('Z');
    assert(out@ =~= utc_text(
        y as nat,
        m as nat,
        (rest + 1) as nat,
        (t / 3600) as nat,
        ((t % 3600) / 60) as nat,
        (t % 60) as nat,
    ));
    out
}

fn digit_of(c: char) -> (out: Option<u64>)
    ensures
        match digit_value(c) {
            Some(v) => out matches Some(w) && w == v,
            None => out is None,
        },
{
    if c == '0' {
        Some(0)
    } else if c == '1' {
        Some(1)
    } else if c == '2' {
        Some(2)
    } else if c == '3' {
        Some(3)
    } else if c == '4' {
        Some(4)
    } else if c == '5' {
        Some(5)
    } else if c == '6' {
        Some(6)
    } else if c == '7' {
        Some(7)
    } else if c == '8' {
        Some(8)
    } else if c == '9' {
        Some(9)
    } else {
        None
    }
}

fn two_digits(s: &Vec<char>, i: usize) -> (out: Option<u64>)
    requires
        i < 20,
        i + 1 < s@.len(),
    ensures
        match two_at(s@, i as int) {
            Some(v) => out matches Some(w) && w == v,
            None => out is None,
        },
{
    match (digit_of(s[i]), digit_of(s[i + 1])) {
        (Some(a), Some(b)) => Some(10 * a + b),
        _ => None,
    }
}

fn four_digits(s: &Vec<char>, i: usize) -> (out: Option<u64>)
    requires
        i < 17,
        i + 3 < s@.len(),
    ensures
        match four_at(s@, i as int) {
            Some(v) => out matches Some(w) && w == v,
            None => out is None,
        },
{
    match (two_digits(s, i), two_digits(s, i + 2)) {
        (Some(a), Some(b)) => Some(100 * a + b),
        _ => None,
    }
}

fn utc_fields_of(s: &Vec<char>) -> (out: Option<(u64, u64, u64, u64, u64, u64)>)
    ensures
        match utc_fields(s@) {
            Some(f) => out matches Some(g) && g.0 == f.0 && g.1 == f.1 && g.2 == f.2 && g.3 == f.3
                && g.4 == f.4 && g.5 == f.5,
            None => out is None,
        },
{
    if !(s.len() == 20 && s[4] == '-' && s[7] == '-' && s[10] == 'T' && s[13] == ':' && s[16]
        == ':' && s[19] == 'Z') {
        return None;
    }
    match (
        four_digits(s, 0),
        two_digits(s, 5),
        two_digits(s, 8),
        two_digits(s, 11),
        two_digits(s, 14),
        two_digits(s, 17),
    ) {
        (Some(y), Some(mo), Some(d), Some(h), Some(mi), Some(se)) => Some((y, mo, d, h, mi, se)),
        _ => None,
    }
}

fn epoch_from(y: u64, mo: u64, d: u64, h: u64, mi: u64, se: u64) -> (e: u64)
    requires
        valid_civil(y as nat, mo as nat, d as nat, h as nat, mi as nat, se as nat),
    ensures
        e == epoch_of(y as nat, mo as nat, d as nat, h as nat, mi as nat, se as nat),
{
    let mut before_year: u64 = 0;
    let mut yy: u64 = 1970;
    while yy < y
        invariant
            1970 <= yy <= y <= 9999,
            before_year == days_before_year(yy as nat),
            before_year <= 366 * (yy - 1970),
        decreases y - yy,
    {
        before_year = before_year + days_in_year(yy);
        yy = yy + 1;
    }
    let mut before_month: u64 = 0;
    let mut mm: u64 = 1;
    while mm < mo
        invariant
            1 <= mm <= mo <= 12,
            before_month == days_before_month(y as nat, mm as nat),
            before_month <= 31 * (mm - 1),
        decreases mo - mm,
    {
        before_month = before_month + days_in_month(y, mm);
        mm = mm + 1;
    }
    (before_year + before_month + d - 1) * 86400 + h * 3600 + mi * 60 + se
}

fn valid_fields(y: u64, mo: u64, d: u64, h: u64, mi: u64, se: u64) -> (r: bool)
    ensures
        r == valid_civil(y as nat, mo as nat, d as nat, h as nat, mi as nat, se as nat),
{
    1970 <= y && y <= 9999 && 1 <= mo && mo <= 12 && 1 <= d && d <= days_in_month(y, mo) && h < 24
        && mi < 60 && se < 60
}

/// Read a `YYYY-MM-DDTHH:MM:SSZ` instant back to seconds after the epoch:
/// `None` for any other shape and for a date or time that does not exist.
pub fn parse_utc(text: &str) -> (out: Option<u64>)
    ensures
        match parse_utc_spec(text@) {
            Some(e) => out matches Some(t) && t == e,
            None => out is None,
        },
{
    let s = chars_of(text);
    let Some((y, mo, d, h, mi, se)) = utc_fields_of(&s) else {
        return None;
    };
    if !valid_fields(y, mo, d, h, mi, se) {
        return None;
    }
    Some(epoch_from(y, mo, d, h, mi, se))
}

// ---------------------------------------------------------------------------
// Reading back what was spelled
// ---------------------------------------------------------------------------

/// Counting leap years up to `n`.
pub open spec fn leaps_through(n: int) -> int {
    n / 4 - n / 100 + n / 400
}

proof fn lemma_leap_step(y: int)
    requires
        y >= 1970,
    ensures
        leaps_through(y) - leaps_through(y - 1) == if is_leap(y as nat) {
            1int
        } else {
            0int
        },
{
    assert(y / 4 - (y - 1) / 4 == if y % 4 == 0 { 1int } else { 0int }) by (nonlinear_arith)
        requires
            y >= 1970,
    ;
    assert(y / 100 - (y - 1) / 100 == if y % 100 == 0 { 1int } else { 0int }) by (nonlinear_arith)
        requires
            y >= 1970,
    ;
    assert(y / 400 - (y - 1) / 400 == if y % 400 == 0 { 1int } else { 0int }) by (nonlinear_arith)
        requires
            y >= 1970,
    ;
    assert(y % 400 == 0 ==> y % 100 == 0 && y % 4 == 0) by (nonlinear_arith)
        requires
            y >= 1970,
    ;
    assert(y % 100 == 0 ==> y % 4 == 0) by (nonlinear_arith)
        requires
            y >= 1970,
    ;
}

/// Days before year `y`, counted in closed form.
proof fn lemma_days_before_year_closed(y: nat)
    requires
        y >= 1970,
    ensures
        days_before_year(y) == 365 * (y - 1970) + leaps_through(y - 1) - leaps_through(1969),
    decreases y,
{
    if y > 1970 {
        lemma_days_before_year_closed((y - 1) as nat);
        lemma_leap_step(y - 1);
    }
}

proof fn lemma_days_before_year_monotone(a: nat, b: nat)
    requires
        a <= b,
    ensures
        days_before_year(a) <= days_before_year(b),
    decreases b - a,
{
    if a < b {
        lemma_days_before_year_monotone(a, (b - 1) as nat);
    }
}

proof fn lemma_split_years(days: nat, y: nat)
    requires
        y >= 1970,
    ensures
        split_years(days, y).0 >= y,
        split_years(days, y).1 < year_days(split_years(days, y).0),
        days_before_year(split_years(days, y).0) + split_years(days, y).1 == days_before_year(y)
            + days,
    decreases days,
{
    if days >= year_days(y) {
        lemma_split_years((days - year_days(y)) as nat, y + 1);
    }
}

proof fn lemma_months_fill_year(y: nat)
    ensures
        days_before_month(y, 12) + month_days(y, 12) == year_days(y),
{
    reveal_with_fuel(days_before_month, 12);
}

proof fn lemma_split_months(days: nat, y: nat, m: nat)
    requires
        1 <= m <= 12,
        days + days_before_month(y, m) < year_days(y),
    ensures
        m <= split_months(days, y, m).0 <= 12,
        split_months(days, y, m).1 < month_days(y, split_months(days, y, m).0),
        days_before_month(y, split_months(days, y, m).0) + split_months(days, y, m).1
            == days_before_month(y, m) + days,
    decreases 12 - m,
{
    if m == 12 {
        lemma_months_fill_year(y);
    } else if days >= month_days(y, m) {
        lemma_split_months((days - month_days(y, m)) as nat, y, m + 1);
    }
}

proof fn lemma_digit(n: nat)
    requires
        n < 10,
    ensures
        digit_value(digit_char(n)) == Some(n),
{
}

proof fn lemma_pad2(n: nat, s: Seq<char>, i: int)
    requires
        n < 100,
        0 <= i,
        i + 1 < s.len(),
        s[i] == pad2(n)[0],
        s[i + 1] == pad2(n)[1],
    ensures
        two_at(s, i) == Some(n),
{
    lemma_digit((n / 10) % 10);
    lemma_digit(n % 10);
}

proof fn lemma_pad4(n: nat, s: Seq<char>, i: int)
    requires
        n < 10000,
        0 <= i,
        i + 3 < s.len(),
        s[i] == pad4(n)[0],
        s[i + 1] == pad4(n)[1],
        s[i + 2] == pad4(n)[2],
        s[i + 3] == pad4(n)[3],
    ensures
        four_at(s, i) == Some(n),
{
    lemma_digit((n / 1000) % 10);
    lemma_digit((n / 100) % 10);
    lemma_digit((n / 10) % 10);
    lemma_digit(n % 10);
    assert(10 * ((n / 1000) % 10) + (n / 100) % 10 == n / 100);
    assert(10 * ((n / 10) % 10) + n % 10 == n % 100);
}

/// The calendar time of an instant up to the end of year 9999 is a real one,
/// and it names that instant again.
proof fn lemma_civil_of(e: nat)
    requires
        e <= LAST_SPELLED_SECOND,
    ensures
        ({
            let (y, mo, d, h, mi, s) = civil_of(e);
            valid_civil(y, mo, d, h, mi, s) && epoch_of(y, mo, d, h, mi, s) == e
        }),
{
    let days = e / 86400;
    lemma_split_years(days, 1970);
    let (y, r) = split_years(days, 1970);
    if y >= 10000 {
        lemma_days_before_year_monotone(10000, y);
        lemma_days_before_year_closed(10000);
        assert(false);
    }
    lemma_split_months(r, y, 1);
    let (m, dd) = split_months(r, y, 1);
    let t = e % 86400;
    assert(days * 86400 + t == e);
}

/// The fields of a spelled calendar time read back as spelled.
proof fn lemma_utc_text_fields(y: nat, mo: nat, d: nat, h: nat, mi: nat, s: nat)
    requires
        y < 10000,
        mo < 100,
        d < 100,
        h < 100,
        mi < 100,
        s < 100,
    ensures
        utc_fields(utc_text(y, mo, d, h, mi, s)) == Some((y, mo, d, h, mi, s)),
{
    let text = utc_text(y, mo, d, h, mi, s);
    let (p4, pm, pd, ph, pmi, ps) = (pad4(y), pad2(mo), pad2(d), pad2(h), pad2(mi), pad2(s));
    assert(text =~= seq![
        p4[0], p4[1], p4[2], p4[3], '-', pm[0], pm[1], '-', pd[0], pd[1], 'T', ph[0], ph[1], ':',
        pmi[0], pmi[1], ':', ps[0], ps[1], 'Z',
    ]);
    lemma_pad4(y, text, 0);
    lemma_pad2(mo, text, 5);
    lemma_pad2(d, text, 8);
    lemma_pad2(h, text, 11);
    lemma_pad2(mi, text, 14);
    lemma_pad2(s, text, 17);
}

/// Reading an instant back gives the instant that was spelled: for every
/// second from the epoch to the end of year 9999, `parse_utc` of
/// `deadline(e)` is `e`.
pub proof fn parse_utc_reads_deadline(e: nat)
    requires
        e <= LAST_SPELLED_SECOND,
    ensures
        parse_utc_spec(deadline_spec(e)) == Some(e),
{
    lemma_civil_of(e);
    let c = civil_of(e);
    lemma_utc_text_fields(c.0, c.1, c.2, c.3, c.4, c.5);
}

} // verus!
