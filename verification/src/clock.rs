//! Reading the local wall clock for timed automations: one consistent
//! snapshot of date, time, weekday and UTC offset, and the UTC offset that
//! `date +%z` prints.

use vstd::prelude::*;
use chrono::{Datelike, TimeZone, Timelike};
use crate::text;
use crate::shell_alias;
use crate::text::{chars_of, push_str, string_of, trim_chars};
use crate::message::{concat3, owned};
use crate::shell_alias::push_decimal;

verus! {

/// What chrono reads off a moment given as Unix seconds seen at a fixed
/// offset from UTC: (year, month, day, hour, minute, day of year, days
/// since Monday).
pub uninterp spec fn civil_fields(unix_seconds: i64, offset_seconds: i32) -> (
    i32,
    u32,
    u32,
    u32,
    u32,
    u32,
    u32,
);

/// Offsets `FixedOffset::east_opt` accepts: less than a day either way.
pub open spec fn offset_representable(offset_seconds: i32) -> bool {
    -86_400 < offset_seconds && offset_seconds < 86_400
}

/// Moments well inside chrono's dates (years -262143 to 262142): about
/// 190,000 years either side of 1970.
pub open spec fn moment_in_range(unix_seconds: i64) -> bool {
    -6_000_000_000_000 <= unix_seconds && unix_seconds <= 6_000_000_000_000
}

/// Reads the calendar fields of a moment with chrono
/// (`FixedOffset::east_opt`, `TimeZone::timestamp_opt`, and the `Datelike`
/// and `Timelike` getters). `None` when chrono cannot represent the offset
/// or the moment: `east_opt` refuses an offset of a day or more, and
/// `timestamp_opt` gives a single moment for every timestamp whose date
/// chrono holds, which includes every `moment_in_range`. The ranges are
/// those the getters document.
#[verifier::external_body]
fn read_civil_fields(unix_seconds: i64, offset_seconds: i32) -> (r: Option<
    (i32, u32, u32, u32, u32, u32, u32),
>)
    ensures
        r matches Some(f) ==> f == civil_fields(unix_seconds, offset_seconds) && 1 <= f.1 <= 12
            && 1 <= f.2 <= 31 && f.3 < 24 && f.4 < 60 && 1 <= f.5 <= 366 && f.6 < 7,
        !offset_representable(offset_seconds) ==> r is None,
        offset_representable(offset_seconds) && moment_in_range(unix_seconds) ==> r is Some,
{
    let offset = chrono::FixedOffset::east_opt(offset_seconds)?;
    let t = offset.timestamp_opt(unix_seconds, 0).single()?;
    Some((t.year(), t.month(), t.day(), t.hour(), t.minute(), t.ordinal(), t.weekday().num_days_from_monday()))
}

/// The weekday keys, Monday first.
pub open spec fn weekday_key_at(i: u32) -> Seq<char> {
    if i == 0 {
        "mon"@
    } else if i == 1 {
        "tue"@
    } else if i == 2 {
        "wed"@
    } else if i == 3 {
        "thu"@
    } else if i == 4 {
        "fri"@
    } else if i == 5 {
        "sat"@
    } else {
        "sun"@
    }
}

pub(crate) proof fn lemma_day_keys_differ()
    ensures
        "mon"@ != "tue"@,
        "mon"@ != "wed"@,
        "mon"@ != "thu"@,
        "mon"@ != "fri"@,
        "mon"@ != "sat"@,
        "mon"@ != "sun"@,
        "tue"@ != "wed"@,
        "tue"@ != "thu"@,
        "tue"@ != "fri"@,
        "tue"@ != "sat"@,
        "tue"@ != "sun"@,
        "wed"@ != "thu"@,
        "wed"@ != "fri"@,
        "wed"@ != "sat"@,
        "wed"@ != "sun"@,
        "thu"@ != "fri"@,
        "thu"@ != "sat"@,
        "thu"@ != "sun"@,
        "fri"@ != "sat"@,
        "fri"@ != "sun"@,
        "sat"@ != "sun"@,
{
    reveal_strlit("mon");
    reveal_strlit("tue");
    reveal_strlit("wed");
    reveal_strlit("thu");
    reveal_strlit("fri");
    reveal_strlit("sat");
    reveal_strlit("sun");
    assert("mon"@[0] != "tue"@[0]);
    assert("mon"@[0] != "wed"@[0]);
    assert("mon"@[0] != "thu"@[0]);
    assert("mon"@[0] != "fri"@[0]);
    assert("mon"@[0] != "sat"@[0]);
    assert("mon"@[0] != "sun"@[0]);
    assert("tue"@[0] != "wed"@[0]);
    assert("tue"@[1] != "thu"@[1]);
    assert("tue"@[0] != "fri"@[0]);
    assert("tue"@[0] != "sat"@[0]);
    assert("tue"@[0] != "sun"@[0]);
    assert("wed"@[0] != "thu"@[0]);
    assert("wed"@[0] != "fri"@[0]);
    assert("wed"@[0] != "sat"@[0]);
    assert("wed"@[0] != "sun"@[0]);
    assert("thu"@[0] != "fri"@[0]);
    assert("thu"@[0] != "sat"@[0]);
    assert("thu"@[0] != "sun"@[0]);
    assert("fri"@[0] != "sat"@[0]);
    assert("fri"@[0] != "sun"@[0]);
    assert("sat"@[1] != "sun"@[1]);
}

/// The day counted `i` from Monday has the weekday key that stands at place
/// `i` in the week, and it is one of the seven keys a schedule accepts.
pub proof fn lemma_weekday_keys_in_order(i: u32)
    requires
        i < 7,
    ensures
        crate::tui_forms::day_rank(weekday_key_at(i)) == i,
        crate::timed::weekday_key(weekday_key_at(i)),
{
    lemma_day_keys_differ();
    reveal_strlit("mon");
    reveal_strlit("tue");
    reveal_strlit("wed");
    reveal_strlit("thu");
    reveal_strlit("fri");
    reveal_strlit("sat");
    reveal_strlit("sun");
}

/// Different days of the week have different keys.
pub proof fn lemma_weekday_keys_distinct(i: u32, j: u32)
    requires
        i < 7,
        j < 7,
        i != j,
    ensures
        weekday_key_at(i) != weekday_key_at(j),
{
    lemma_weekday_keys_in_order(i);
    lemma_weekday_keys_in_order(j);
}

/// The weekday key of a day counted from Monday.
pub fn weekday_name(days_from_monday: u32) -> (r: &'static str)
    requires
        days_from_monday < 7,
    ensures
        r@ == weekday_key_at(days_from_monday),
{
    if days_from_monday == 0 {
        "mon"
    } else if days_from_monday == 1 {
        "tue"
    } else if days_from_monday == 2 {
        "wed"
    } else if days_from_monday == 3 {
        "thu"
    } else if days_from_monday == 4 {
        "fri"
    } else if days_from_monday == 5 {
        "sat"
    } else {
        "sun"
    }
}

/// `n` as decimal digits, zero-padded to `width` digits.
pub open spec fn zero_padded(n: nat, width: nat) -> Seq<char>
    decreases width,
{
    if width <= shell_alias::decimal(n).len() {
        shell_alias::decimal(n)
    } else {
        seq!['0'] + zero_padded(n, (width - 1) as nat)
    }
}

/// A year as `{:04}` writes it: four digits at least, a minus sign counted
/// in the width.
pub open spec fn year_text(y: int) -> Seq<char> {
    if y >= 0 {
        zero_padded(y as nat, 4)
    } else {
        seq!['-'] + zero_padded((-y) as nat, 3)
    }
}

/// A date as `YYYY-MM-DD`.
pub open spec fn date_text(year: int, month: u32, day: u32) -> Seq<char> {
    year_text(year) + seq!['-'] + zero_padded(month as nat, 2) + seq!['-'] + zero_padded(
        day as nat,
        2,
    )
}

fn push_padded(v: &mut Vec<char>, n: u64, width: usize)
    ensures
        final(v)@ == old(v)@ + zero_padded(n as nat, width as nat),
{
    let mut digits: Vec<char> = Vec::new();
    push_decimal(&mut digits, n);
    assert(digits@ =~= shell_alias::decimal(n as nat));
    let mut pad: usize = 0;
    let mut zeros: Vec<char> = Vec::new();
    let mut w: usize = width;
    let ghost start = v@;
    while w > digits.len()
        invariant
            w <= width,
            digits@ == shell_alias::decimal(n as nat),
            zeros@ + zero_padded(n as nat, w as nat) == zero_padded(n as nat, width as nat),
        decreases w,
    {
        zeros.push('0');
        assert(zero_padded(n as nat, w as nat) == seq!['0'] + zero_padded(n as nat, (w - 1) as nat));
        assert(zeros@ + zero_padded(n as nat, (w - 1) as nat) =~= zeros@.drop_last() + (seq!['0']
            + zero_padded(n as nat, (w - 1) as nat)));
        w = w - 1;
    }
    assert(zero_padded(n as nat, w as nat) == digits@);
    let mut i: usize = 0;
    while i < zeros.len()
        invariant
            i <= zeros@.len(),
            v@ == start + zeros@.take(i as int),
        decreases zeros@.len() - i,
    {
        v.push(zeros[i]);
        assert(zeros@.take(i + 1) =~= zeros@.take(i as int).push(zeros@[i as int]));
        i = i + 1;
    }
    assert(zeros@.take(zeros@.len() as int) =~= zeros@);
    let mut j: usize = 0;
    while j < digits.len()
        invariant
            j <= digits@.len(),
            v@ == start + zeros@ + digits@.take(j as int),
        decreases digits@.len() - j,
    {
        v.push(digits[j]);
        assert(digits@.take(j + 1) =~= digits@.take(j as int).push(digits@[j as int]));
        j = j + 1;
    }
    assert(digits@.take(digits@.len() as int) =~= digits@);
    assert(v@ =~= start + zero_padded(n as nat, width as nat));
}

/// `a / b` rounded toward zero, as Rust divides integers.
pub open spec fn div_toward_zero(a: int, b: int) -> int {
    if a >= 0 {
        a / b
    } else {
        -((-a) / b)
    }
}

/// One reading of the local wall clock.
pub struct LocalNow {
    pub hour: u32,
    pub minute: u32,
    pub date: String,
    pub day_of_year: u32,
    pub weekday: String,
    pub utc_offset_minutes: i64,
}

/// Assembles a clock reading from its parts: the date as `YYYY-MM-DD`, the
/// weekday as its key, and the UTC offset in whole minutes.
pub fn snapshot_from_parts(
    hour: u32,
    minute: u32,
    year: i32,
    month: u32,
    day: u32,
    day_of_year: u32,
    days_from_monday: u32,
    offset_seconds: i32,
) -> (r: LocalNow)
    requires
        days_from_monday < 7,
    ensures
        r.hour == hour,
        r.minute == minute,
        r.date@ == date_text(year as int, month, day),
        r.day_of_year == day_of_year,
        r.weekday@ == weekday_key_at(days_from_monday),
        r.utc_offset_minutes == div_toward_zero(offset_seconds as int, 60),
{
    let mut date: Vec<char> = Vec::new();
    if year >= 0 {
        push_padded(&mut date, year as u64, 4);
    } else {
        date.push('-');
        let magnitude: u64 = (0i64 - year as i64) as u64;
        push_padded(&mut date, magnitude, 3);
    }
    let ghost y = date@;
    date.push('-');
    push_padded(&mut date, month as u64, 2);
    date.push('-');
    push_padded(&mut date, day as u64, 2);
    assert(date@ =~= date_text(year as int, month, day));
    let seconds = offset_seconds as i64;
    let minutes: i64 = if seconds >= 0 {
        seconds / 60
    } else {
        0 - ((0 - seconds) / 60)
    };
    LocalNow {
        hour,
        minute,
        date: string_of(&date),
        day_of_year,
        weekday: owned(weekday_name(days_from_monday)),
        utc_offset_minutes: minutes,
    }
}

/// The clock reading of fields read off a moment at an offset.
pub open spec fn snapshot_matches(
    r: LocalNow,
    f: (i32, u32, u32, u32, u32, u32, u32),
    offset_seconds: i32,
) -> bool {
    &&& r.hour == f.3
    &&& r.minute == f.4
    &&& r.date@ == date_text(f.0 as int, f.1, f.2)
    &&& r.day_of_year == f.5
    &&& r.weekday@ == weekday_key_at(f.6)
    &&& r.utc_offset_minutes == div_toward_zero(offset_seconds as int, 60)
}

/// One consistent reading of the wall clock at a moment (Unix seconds) seen
/// at a fixed offset from UTC: every field comes from the same moment, so
/// date and time cannot drift apart around midnight. `None` for an offset
/// of a day or more, or a moment chrono cannot represent; every moment
/// within about 190,000 years of 1970 is read.
pub fn local_snapshot(unix_seconds: i64, offset_seconds: i32) -> (r: Option<LocalNow>)
    ensures
        r matches Some(s) ==> snapshot_matches(s, civil_fields(unix_seconds, offset_seconds), offset_seconds),
        !offset_representable(offset_seconds) ==> r is None,
        offset_representable(offset_seconds) && moment_in_range(unix_seconds) ==> r is Some,
{
    match read_civil_fields(unix_seconds, offset_seconds) {
        Some(f) => {
            let (year, month, day, hour, minute, ordinal, weekday) = f;
            Some(snapshot_from_parts(hour, minute, year, month, day, ordinal, weekday, offset_seconds))
        },
        None => None,
    }
}

/// The value of two characters as `str::parse::<i64>` reads them: two
/// digits, or a sign and one digit.
pub open spec fn two_char_number(s: Seq<char>) -> Option<int> {
    if s.len() != 2 {
        None
    } else if shell_alias::is_ascii_digit(s[0]) && shell_alias::is_ascii_digit(s[1]) {
        Some(10 * (s[0] as int - 48) + (s[1] as int - 48))
    } else if s[0] == '+' && shell_alias::is_ascii_digit(s[1]) {
        Some(s[1] as int - 48)
    } else if s[0] == '-' && shell_alias::is_ascii_digit(s[1]) {
        Some(-(s[1] as int - 48))
    } else {
        None
    }
}

/// The offset `+HHMM` / `-HHMM` in minutes, once trimmed; `None` for any
/// other text.
pub open spec fn utc_offset_minutes_of(text: Seq<char>) -> Option<int> {
    let t = text::trim(text);
    if vstd::utf8::encode_utf8(t).len() != 5 || t.len() != 5 || !(t[0] == '+' || t[0] == '-') {
        None
    } else {
        match (two_char_number(t.subrange(1, 3)), two_char_number(t.subrange(3, 5))) {
            (Some(h), Some(m)) => Some(if t[0] == '-' {
                -(h * 60 + m)
            } else {
                h * 60 + m
            }),
            _ => None,
        }
    }
}

proof fn lemma_encoded_length_bound(s: Seq<char>)
    ensures
        vstd::utf8::encode_utf8(s).len() <= 4 * s.len(),
    decreases s.len(),
{
    if s.len() > 0 {
        lemma_encoded_length_bound(s.drop_first());
        assert(vstd::utf8::encode_scalar(s[0] as u32).len() <= 4);
    }
}

fn two_chars(a: char, b: char) -> (r: Option<i64>)
    ensures
        match two_char_number(seq![a, b]) {
            Some(v) => r == Some(v as i64),
            None => r is None,
        },
{
    let da = '0' <= a && a <= '9';
    let db = '0' <= b && b <= '9';
    if da && db {
        Some(10 * (a as i64 - 48) + (b as i64 - 48))
    } else if a == '+' && db {
        Some(b as i64 - 48)
    } else if a == '-' && db {
        Some(0 - (b as i64 - 48))
    } else {
        None
    }
}

/// Parses what `date +%z` prints (`+0200`, `-0530`) into minutes east of UTC.
/// Any other text, also one of five bytes whose characters are not five,
/// is refused.
pub fn parse_utc_offset(text: &str) -> (r: Result<i64, String>)
    ensures
        match utc_offset_minutes_of(text@) {
            Some(m) => r == Ok::<i64, String>(m as i64),
            None => r is Err && r->Err_0@ == "\""@ + text@
                + "\" is not a valid UTC offset (expected +HHMM)."@,
        },
{
    let t = trim_chars(&chars_of(text));
    let ts = string_of(&t);
    if t.len() != 5 || !(t[0] == '+' || t[0] == '-') {
        return Err(concat3("\"", text, "\" is not a valid UTC offset (expected +HHMM)."));
    }
    let tstr = ts.as_str();
    proof {
        lemma_encoded_length_bound(t@);
    }
    let bytes = tstr.len();
    if bytes != 5 {
        return Err(concat3("\"", text, "\" is not a valid UTC offset (expected +HHMM)."));
    }
    let h = two_chars(t[1], t[2]);
    let m = two_chars(t[3], t[4]);
    assert(t@.subrange(1, 3) =~= seq![t@[1], t@[2]]);
    assert(t@.subrange(3, 5) =~= seq![t@[3], t@[4]]);
    assert(two_char_number(t@.subrange(1, 3)) is Some <==> h is Some);
    assert(two_char_number(t@.subrange(3, 5)) is Some <==> m is Some);
    match (h, m) {
        (Some(h), Some(m)) => {
            let total = h * 60 + m;
            if t[0] == '-' {
                Ok(0 - total)
            } else {
                Ok(total)
            }
        },
        _ => Err(concat3("\"", text, "\" is not a valid UTC offset (expected +HHMM).")),
    }
}

} // verus!
