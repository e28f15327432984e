//! Timed automations: an automation that runs at a clock time, or at the
//! day's sunrise or sunset, optionally on chosen weekdays.

use vstd::prelude::*;
use crate::text;
use crate::text::{chars_of, is_blank_str, push_str, split_chars, string_of, trim_chars};
use crate::message::{concat2, concat3, owned, str_eq};
use crate::automation::Automation;

verus! {

/// Weekday keys, Monday first.
pub open spec fn weekday_key(d: Seq<char>) -> bool {
    d == "mon"@ || d == "tue"@ || d == "wed"@ || d == "thu"@ || d == "fri"@ || d == "sat"@ || d
        == "sun"@
}

/// Whether a text is one of the sunrise/sunset region keys.
pub open spec fn known_region(r: Seq<char>) -> bool {
    r == "us-pacific"@ || r == "us-mountain"@ || r == "us-central"@ || r == "us-eastern"@ || r
        == "uk-ireland"@ || r == "eu-west"@ || r == "eu-central"@ || r == "eu-east"@ || r
        == "asia-east"@ || r == "asia-south"@ || r == "australia"@
}

/// An automation scheduled to run at a time of day.
#[derive(Clone, Debug)]
pub struct TimedAutomation {
    pub id: String,
    pub automation_id: String,
    pub trigger_kind: String,
    pub time: String,
    pub days: Vec<String>,
    pub enabled: bool,
    pub created_at: String,
    pub updated_at: String,
    pub last_run_at: Option<u64>,
    pub last_run_status: Option<String>,
    pub last_run_output: Option<String>,
    pub last_triggered_date: Option<String>,
}

/// The value of a nonempty run of ASCII digits.
pub open spec fn digits_value(d: Seq<char>) -> nat
    decreases d.len(),
{
    if d.len() == 0 {
        0
    } else {
        digits_value(d.drop_last()) * 10 + ((d.last() as u32) - 48) as nat
    }
}

pub open spec fn all_digits(d: Seq<char>) -> bool {
    forall|i: int| 0 <= i < d.len() ==> '0' <= #[trigger] d[i] && d[i] <= '9'
}

/// `str::parse::<u32>`: an optional `+`, then one or more ASCII digits, and
/// a value that fits.
pub open spec fn parse_u32(s: Seq<char>) -> Option<u32> {
    let d = if s.len() > 0 && s[0] == '+' {
        s.drop_first()
    } else {
        s
    };
    if d.len() == 0 || !all_digits(d) || digits_value(d) > u32::MAX {
        None
    } else {
        Some(digits_value(d) as u32)
    }
}

/// The message for a text that is not a time of day.
pub open spec fn time_error(v: Seq<char>) -> Seq<char> {
    "\""@ + v + "\" is not a valid time (expected HH:MM)."@
}

/// `HH:MM` with an hour below 24 and a minute below 60.
pub open spec fn time_of_day(v: Seq<char>) -> Option<(u32, u32)> {
    let parts = text::split_on(v, ':');
    if parts.len() != 2 {
        None
    } else {
        match (parse_u32(parts[0]), parse_u32(parts[1])) {
            (Some(h), Some(m)) => if h > 23 || m > 59 {
                None
            } else {
                Some((h, m))
            },
            _ => None,
        }
    }
}

proof fn lemma_digits_value_grows(d: Seq<char>, k: int)
    requires
        0 <= k <= d.len(),
        all_digits(d),
    ensures
        digits_value(d.take(k)) <= digits_value(d),
    decreases d.len() - k,
{
    if k < d.len() {
        lemma_digits_value_grows(d, k + 1);
        assert(d.take(k + 1).drop_last() =~= d.take(k));
        assert(d.take(k + 1).last() == d[k]);
    } else {
        assert(d.take(k) =~= d);
    }
}

/// `str::parse::<u32>` on characters.
pub fn parse_u32_chars(s: &Vec<char>) -> (r: Option<u32>)
    ensures
        r == parse_u32(s@),
{
    let start: usize = if s.len() > 0 && s[0] == '+' {
        1
    } else {
        0
    };
    let ghost d = if s@.len() > 0 && s@[0] == '+' {
        s@.drop_first()
    } else {
        s@
    };
    assert(d =~= s@.skip(start as int));
    if start == s.len() {
        return None;
    }
    let mut value: u64 = 0;
    let mut i: usize = start;
    while i < s.len()
        invariant
            start <= i <= s.len(),
            d =~= s@.skip(start as int),
            d == (if s@.len() > 0 && s@[0] == '+' {
                s@.drop_first()
            } else {
                s@
            }),
            forall|k: int| 0 <= k < i - start ==> '0' <= #[trigger] d[k] && d[k] <= '9',
            value as nat == digits_value(d.take(i - start)),
            value <= u32::MAX,
        decreases s.len() - i,
    {
        let c = s[i];
        assert(d[i - start] == s@[i as int]);
        if c < '0' || c > '9' {
            assert(!all_digits(d)) by {
                assert(d[i - start] == c);
                assert(!('0' <= d[i - start] && d[i - start] <= '9'));
            }
            assert(d.len() > 0);
            return None;
        }
        assert(d.take(i - start + 1).drop_last() =~= d.take(i - start));
        assert(d.take(i - start + 1).last() == c);
        let next = value * 10 + ((c as u32) - 48) as u64;
        assert(next as nat == digits_value(d.take(i - start + 1)));
        if next > 4294967295 {
            proof {
                if all_digits(d) {
                    lemma_digits_value_grows(d, i - start + 1);
                    assert(digits_value(d) > u32::MAX);
                }
            }
            return None;
        }
        value = next;
        i = i + 1;
    }
    assert(d.take(i - start) =~= d);
    Some(value as u32)
}

/// Parses a time of day written `HH:MM`.
pub fn parse_time_of_day(value: &str) -> (r: Result<(u32, u32), String>)
    ensures
        match r {
            Ok(t) => time_of_day(value@) == Some(t),
            Err(e) => time_of_day(value@) is None && e@ == time_error(value@),
        },
{
    let s = chars_of(value);
    let parts = split_chars(&s, ':');
    let ghost pv = parts@.map_values(|l: Vec<char>| l@);
    if parts.len() != 2 {
        return Err(concat3("\"", value, "\" is not a valid time (expected HH:MM)."));
    }
    assert(pv[0] == parts@[0]@ && pv[1] == parts@[1]@);
    let hour = parse_u32_chars(&parts[0]);
    let minute = parse_u32_chars(&parts[1]);
    match (hour, minute) {
        (Some(h), Some(m)) => {
            if h > 23 || m > 59 {
                Err(concat3("\"", value, "\" is not a valid time (expected HH:MM)."))
            } else {
                Ok((h, m))
            }
        },
        _ => Err(concat3("\"", value, "\" is not a valid time (expected HH:MM).")),
    }
}

/// The two-digit decimal form of a number below 100 (`{:02}`).
pub open spec fn two_digits(n: u32) -> Seq<char> {
    seq![((n / 10) + 48) as char, ((n % 10) + 48) as char]
}

/// Appends a number below 100 as two decimal digits.
pub fn push_two_digits(v: &mut Vec<char>, n: u32)
    requires
        n < 100,
    ensures
        final(v)@ == old(v)@ + two_digits(n),
{
    let tens = ((n / 10) as u8 + 48) as char;
    let ones = ((n % 10) as u8 + 48) as char;
    v.push(tens);
    v.push(ones);
    assert(tens == ((n / 10) + 48) as char);
    assert(ones == ((n % 10) + 48) as char);
}

/// The systemd spelling of a weekday key; unknown keys read as Monday.
pub open spec fn systemd_weekday(day: Seq<char>) -> Seq<char> {
    if day == "mon"@ {
        "Mon"@
    } else if day == "tue"@ {
        "Tue"@
    } else if day == "wed"@ {
        "Wed"@
    } else if day == "thu"@ {
        "Thu"@
    } else if day == "fri"@ {
        "Fri"@
    } else if day == "sat"@ {
        "Sat"@
    } else if day == "sun"@ {
        "Sun"@
    } else {
        "Mon"@
    }
}

/// The systemd spelling of a weekday key.
pub fn weekday_to_systemd(day: &str) -> (r: &'static str)
    ensures
        r@ == systemd_weekday(day@),
{
    if str_eq(day, "mon") {
        "Mon"
    } else if str_eq(day, "tue") {
        "Tue"
    } else if str_eq(day, "wed") {
        "Wed"
    } else if str_eq(day, "thu") {
        "Thu"
    } else if str_eq(day, "fri") {
        "Fri"
    } else if str_eq(day, "sat") {
        "Sat"
    } else if str_eq(day, "sun") {
        "Sun"
    } else {
        "Mon"
    }
}

/// The days of a schedule in systemd spelling, joined with commas.
pub open spec fn systemd_days(days: Seq<String>) -> Seq<char>
    decreases days.len(),
{
    if days.len() == 0 {
        Seq::empty()
    } else if days.len() == 1 {
        systemd_weekday(days[0]@)
    } else {
        systemd_days(days.drop_last()) + ","@ + systemd_weekday(days.last()@)
    }
}

/// The `OnCalendar=` expression: every day `*-*-* HH:MM:00`, or for chosen
/// weekdays `Mon,Fri *-*-* HH:MM:00`.
pub open spec fn on_calendar(days: Seq<String>, h: u32, m: u32) -> Seq<char> {
    let time = "*-*-* "@ + two_digits(h) + ":"@ + two_digits(m) + ":00"@;
    if days.len() == 0 {
        time
    } else {
        systemd_days(days) + " "@ + time
    }
}

/// Builds the systemd `OnCalendar=` expression of a clock-time schedule.
pub fn timed_automation_on_calendar(entry: &TimedAutomation) -> (r: Result<String, String>)
    ensures
        match time_of_day(entry.time@) {
            None => r is Err && r->Err_0@ == time_error(entry.time@),
            Some((h, m)) => r is Ok && r->Ok_0@ == on_calendar(entry.days@, h, m),
        },
{
    let (hour, minute) = match parse_time_of_day(entry.time.as_str()) {
        Ok(t) => t,
        Err(e) => {
            return Err(e);
        },
    };
    let mut v: Vec<char> = Vec::new();
    let ghost days = entry.days@;
    if entry.days.len() > 0 {
        let mut i: usize = 0;
        while i < entry.days.len()
            invariant
                i <= days.len(),
                days == entry.days@,
                i > 0 ==> v@ == systemd_days(days.take(i as int)),
                i == 0 ==> v@.len() == 0,
            decreases days.len() - i,
        {
            assert(days.take(i + 1).drop_last() =~= days.take(i as int));
            assert(days.take(i + 1).last() == days[i as int]);
            if i > 0 {
                push_str(&mut v, ",");
            }
            let w = weekday_to_systemd(entry.days[i].as_str());
            push_str(&mut v, w);
            assert(v@ =~= systemd_days(days.take(i + 1)));
            i = i + 1;
        }
        assert(days.take(days.len() as int) =~= days);
        push_str(&mut v, " ");
    }
    let ghost prefix = v@;
    push_str(&mut v, "*-*-* ");
    push_two_digits(&mut v, hour);
    push_str(&mut v, ":");
    push_two_digits(&mut v, minute);
    push_str(&mut v, ":00");
    assert(v@ =~= on_calendar(days, hour, minute));
    Ok(string_of(&v))
}

/// The name shared by the systemd units of one timed automation.
pub fn timed_automation_unit_name(id: &str) -> (r: String)
    ensures
        r@ == "easyalias-timed-"@ + id@,
{
    concat2("easyalias-timed-", id)
}

/// The name of the shared sunrise/sunset checker units.
pub fn sun_timed_automations_checker_unit_name() -> (r: &'static str)
    ensures
        r@ == "easyalias-sun-timed-automations"@,
{
    "easyalias-sun-timed-automations"
}

/// Whether one of the days is not a weekday key; the first such day.
pub open spec fn first_bad_day(days: Seq<String>) -> Option<Seq<char>>
    decreases days.len(),
{
    if days.len() == 0 {
        None
    } else {
        match first_bad_day(days.drop_last()) {
            Some(d) => Some(d),
            None => if weekday_key(days.last()@) {
                None
            } else {
                Some(days.last()@)
            },
        }
    }
}

/// Why a timed automation cannot be saved, if it cannot; `region` is the
/// configured sunrise/sunset region.
pub open spec fn timed_automation_error(
    e: TimedAutomation,
    automations: Seq<Automation>,
    region: Seq<char>,
) -> Option<Seq<char>> {
    if text::trim(e.id@).len() == 0 {
        Some("Every timed automation needs an id."@)
    } else if !(exists|i: int| 0 <= i < automations.len() && automations[i].id@ == e.automation_id@) {
        Some("Choose an automation to schedule."@)
    } else if e.trigger_kind@ == "clock"@ && time_of_day(e.time@) is None {
        Some(time_error(e.time@))
    } else if (e.trigger_kind@ == "sunrise"@ || e.trigger_kind@ == "sunset"@) && !known_region(
        region,
    ) {
        Some("Choose a region for sunrise/sunset scheduling."@)
    } else if !(e.trigger_kind@ == "clock"@ || e.trigger_kind@ == "sunrise"@ || e.trigger_kind@
        == "sunset"@) {
        Some("\""@ + e.trigger_kind@ + "\" is not a valid trigger."@)
    } else {
        match first_bad_day(e.days@) {
            Some(d) => Some("\""@ + d + "\" is not a valid weekday."@),
            None => None,
        }
    }
}

/// Whether a text is one of the weekday keys.
pub fn is_weekday_key(d: &str) -> (r: bool)
    ensures
        r == weekday_key(d@),
{
    str_eq(d, "mon") || str_eq(d, "tue") || str_eq(d, "wed") || str_eq(d, "thu") || str_eq(d, "fri")
        || str_eq(d, "sat") || str_eq(d, "sun")
}

/// Whether a text is one of the sunrise/sunset region keys.
pub fn is_known_region(r: &str) -> (b: bool)
    ensures
        b == known_region(r@),
{
    str_eq(r, "us-pacific") || str_eq(r, "us-mountain") || str_eq(r, "us-central") || str_eq(
        r,
        "us-eastern",
    ) || str_eq(r, "uk-ireland") || str_eq(r, "eu-west") || str_eq(r, "eu-central") || str_eq(
        r,
        "eu-east",
    ) || str_eq(r, "asia-east") || str_eq(r, "asia-south") || str_eq(r, "australia")
}

/// Checks a timed automation against the current automations: it needs an
/// id, an existing target, a valid trigger (a valid time for clock
/// triggers, a known region for sunrise/sunset) and valid weekdays.
pub fn validate_timed_automation(
    entry: &TimedAutomation,
    automations: &[Automation],
    sun_region: &str,
) -> (r: Result<(), String>)
    ensures
        match r {
            Ok(()) => timed_automation_error(*entry, automations@, sun_region@) is None,
            Err(e) => timed_automation_error(*entry, automations@, sun_region@) == Some(e@),
        },
{
    if is_blank_str(entry.id.as_str()) {
        return Err(owned("Every timed automation needs an id."));
    }
    let mut found = false;
    let mut i: usize = 0;
    while i < automations.len()
        invariant
            i <= automations@.len(),
            found == exists|k: int| 0 <= k < i && automations@[k].id@ == entry.automation_id@,
        decreases automations@.len() - i,
    {
        if automations[i].id == entry.automation_id {
            found = true;
        }
        i = i + 1;
    }
    if !found {
        return Err(owned("Choose an automation to schedule."));
    }
    let kind = entry.trigger_kind.as_str();
    if str_eq(kind, "clock") {
        match parse_time_of_day(entry.time.as_str()) {
            Ok(_) => {},
            Err(e) => {
                return Err(e);
            },
        }
    } else if str_eq(kind, "sunrise") || str_eq(kind, "sunset") {
        if !is_known_region(sun_region) {
            return Err(owned("Choose a region for sunrise/sunset scheduling."));
        }
    } else {
        return Err(concat3("\"", kind, "\" is not a valid trigger."));
    }
    proof {
        reveal_strlit("clock");
        reveal_strlit("sunrise");
        reveal_strlit("sunset");
        assert("clock"@[1] != "sunrise"@[1] && "clock"@[1] != "sunset"@[1]);
    }
    match first_bad_day_index(&entry.days) {
        Some(j) => Err(concat3("\"", entry.days[j].as_str(), "\" is not a valid weekday.")),
        None => Ok(()),
    }
}

/// The position of the first day that is not a weekday key.
fn first_bad_day_index(days: &Vec<String>) -> (r: Option<usize>)
    ensures
        match r {
            Some(j) => j < days@.len() && first_bad_day(days@) == Some(days@[j as int]@),
            None => first_bad_day(days@) is None,
        },
{
    let ghost dv = days@;
    let mut j: usize = 0;
    while j < days.len()
        invariant
            j <= dv.len(),
            dv == days@,
            first_bad_day(dv.take(j as int)) is None,
        decreases dv.len() - j,
    {
        assert(dv.take(j + 1).drop_last() =~= dv.take(j as int));
        assert(dv.take(j + 1).last() == dv[j as int]);
        if !is_weekday_key(days[j].as_str()) {
            proof {
                lemma_first_bad_day_prefix(dv, j + 1);
            }
            return Some(j);
        }
        j = j + 1;
    }
    assert(dv.take(dv.len() as int) =~= dv);
    None
}

proof fn lemma_first_bad_day_prefix(days: Seq<String>, n: int)
    requires
        0 <= n <= days.len(),
        first_bad_day(days.take(n)) is Some,
    ensures
        first_bad_day(days) == first_bad_day(days.take(n)),
    decreases days.len() - n,
{
    if n < days.len() {
        assert(days.take(n + 1).drop_last() =~= days.take(n));
        lemma_first_bad_day_prefix(days, n + 1);
    } else {
        assert(days.take(n) =~= days);
    }
}

/// What time a timed automation fires at today: its clock time, or the
/// day's sunrise/sunset for the configured region as the caller computed
/// it (`None` when the sun does not rise or set there today).
pub open spec fn trigger_time_today(
    e: TimedAutomation,
    region: Seq<char>,
    sun_event: Option<(u32, u32)>,
) -> Result<Option<(u32, u32)>, Seq<char>> {
    if e.trigger_kind@ == "clock"@ {
        match time_of_day(e.time@) {
            Some(t) => Ok(Some(t)),
            None => Err(time_error(e.time@)),
        }
    } else if e.trigger_kind@ == "sunrise"@ || e.trigger_kind@ == "sunset"@ {
        if known_region(region) {
            Ok(sun_event)
        } else {
            Err("\""@ + region + "\" is not a known region."@)
        }
    } else {
        Err("\""@ + e.trigger_kind@ + "\" is not a valid trigger."@)
    }
}

/// Resolves what time a timed automation should fire at today.
pub fn resolve_trigger_time_today(
    entry: &TimedAutomation,
    sun_region: &str,
    sun_event: Option<(u32, u32)>,
) -> (r: Result<Option<(u32, u32)>, String>)
    ensures
        match trigger_time_today(*entry, sun_region@, sun_event) {
            Ok(t) => r == Ok::<Option<(u32, u32)>, String>(t),
            Err(m) => r is Err && r->Err_0@ == m,
        },
{
    let kind = entry.trigger_kind.as_str();
    if str_eq(kind, "clock") {
        match parse_time_of_day(entry.time.as_str()) {
            Ok(t) => Ok(Some(t)),
            Err(e) => Err(e),
        }
    } else if str_eq(kind, "sunrise") || str_eq(kind, "sunset") {
        if is_known_region(sun_region) {
            Ok(sun_event)
        } else {
            Err(concat3("\"", sun_region, "\" is not a known region."))
        }
    } else {
        Err(concat3("\"", kind, "\" is not a valid trigger."))
    }
}

/// Whether an entry is triggered by the sun.
pub open spec fn sun_triggered(e: TimedAutomation) -> bool {
    e.trigger_kind@ == "sunrise"@ || e.trigger_kind@ == "sunset"@
}

/// Whether the shared sunrise/sunset checker has work: some enabled entry
/// is triggered by the sun.
pub open spec fn sun_checker_needed(entries: Seq<TimedAutomation>) -> bool {
    exists|i: int| 0 <= i < entries.len() && entries[i].enabled && sun_triggered(entries[i])
}

/// Whether the shared sunrise/sunset checker job must be scheduled (true)
/// or removed (false) for these entries.
pub fn sync_sun_timed_automations_checker_linux(entries: &[TimedAutomation]) -> (r: bool)
    ensures
        r == sun_checker_needed(entries@),
{
    let mut i: usize = 0;
    while i < entries.len()
        invariant
            i <= entries@.len(),
            forall|k: int| 0 <= k < i ==> !(entries@[k].enabled && sun_triggered(entries@[k])),
        decreases entries@.len() - i,
    {
        let e = &entries[i];
        if e.enabled && (str_eq(e.trigger_kind.as_str(), "sunrise") || str_eq(
            e.trigger_kind.as_str(),
            "sunset",
        )) {
            return true;
        }
        i = i + 1;
    }
    false
}

/// The same decision for the macOS launchd checker job.
pub fn sync_sun_timed_automations_checker_macos(entries: &[TimedAutomation]) -> (r: bool)
    ensures
        r == sun_checker_needed(entries@),
{
    sync_sun_timed_automations_checker_linux(entries)
}

/// The position of the first automation with the given id.
pub fn find_automation(automations: &[Automation], id: &String) -> (r: Option<usize>)
    ensures
        match r {
            Some(i) => i < automations@.len() && automations@[i as int].id@ == id@ && forall|
                k: int,
            | 0 <= k < i ==> automations@[k].id@ != id@,
            None => forall|k: int| 0 <= k < automations@.len() ==> automations@[k].id@ != id@,
        },
{
    let mut i: usize = 0;
    while i < automations.len()
        invariant
            i <= automations@.len(),
            forall|k: int| 0 <= k < i ==> automations@[k].id@ != id@,
        decreases automations@.len() - i,
    {
        if automations[i].id == *id {
            return Some(i);
        }
        i = i + 1;
    }
    None
}

/// Where a timed automation fired from the scheduler is found: the position
/// of the entry with `id` and of the automation it runs.
pub fn run_timed_automation_headless(
    entries: &[TimedAutomation],
    automations: &[Automation],
    id: &str,
) -> (r: Result<(usize, usize), String>)
    ensures
        match r {
            Ok((i, a)) => i < entries@.len() && entries@[i as int].id@ == id@ && (forall|k: int|
                0 <= k < i ==> entries@[k].id@ != id@) && a < automations@.len()
                && automations@[a as int].id@ == entries@[i as int].automation_id@ && (forall|
                k: int,
            | 0 <= k < a ==> automations@[k].id@ != entries@[i as int].automation_id@),
            Err(e) => (e@ == "Timed automation no longer exists."@ && forall|k: int|
                0 <= k < entries@.len() ==> entries@[k].id@ != id@) || (e@
                == "Automation no longer exists."@ && exists|i: int|
                0 <= i < entries@.len() && entries@[i].id@ == id@ && (forall|k: int|
                    0 <= k < i ==> entries@[k].id@ != id@) && forall|k: int|
                    0 <= k < automations@.len() ==> automations@[k].id@
                        != entries@[i].automation_id@),
        },
{
    let mut i: usize = 0;
    while i < entries.len()
        invariant
            i <= entries@.len(),
            forall|k: int| 0 <= k < i ==> entries@[k].id@ != id@,
        decreases entries@.len() - i,
    {
        if str_eq(entries[i].id.as_str(), id) {
            match find_automation(automations, &entries[i].automation_id) {
                Some(a) => {
                    return Ok((i, a));
                },
                None => {
                    return Err(owned("Automation no longer exists."));
                },
            }
        }
        i = i + 1;
    }
    Err(owned("Timed automation no longer exists."))
}

/// The first 500 characters of a text.
pub fn first_chars(s: &str, n: usize) -> (r: String)
    ensures
        r@ == s@.take(if n <= s@.len() {
            n as int
        } else {
            s@.len() as int
        }),
{
    let c = chars_of(s);
    let end = if n <= c.len() {
        n
    } else {
        c.len()
    };
    let t = crate::text::slice_chars(&c, 0, end);
    string_of(&t)
}

/// Records the outcome of a run on its schedule entry: when it ran,
/// "success" or "error", and for an error its first 500 characters.
pub fn record_run_outcome(entry: &mut TimedAutomation, ran_at: Option<u64>, outcome: &Result<(), String>)
    ensures
        final(entry).last_run_at == ran_at,
        match outcome {
            Ok(()) => final(entry).last_run_status is Some && final(entry).last_run_status->0@
                == "success"@ && final(entry).last_run_output is None,
            Err(m) => final(entry).last_run_status is Some && final(entry).last_run_status->0@
                == "error"@ && final(entry).last_run_output is Some
                && final(entry).last_run_output->0@ == m@.take(if 500 <= m@.len() {
                500
            } else {
                m@.len() as int
            }),
        },
        final(entry).id == old(entry).id,
        final(entry).automation_id == old(entry).automation_id,
        final(entry).trigger_kind == old(entry).trigger_kind,
        final(entry).time == old(entry).time,
        final(entry).days == old(entry).days,
        final(entry).enabled == old(entry).enabled,
        final(entry).last_triggered_date == old(entry).last_triggered_date,
        final(entry).created_at == old(entry).created_at,
        final(entry).updated_at == old(entry).updated_at,
{
    entry.last_run_at = ran_at;
    match outcome {
        Ok(()) => {
            entry.last_run_status = Some(owned("success"));
            entry.last_run_output = None;
        },
        Err(message) => {
            entry.last_run_status = Some(owned("error"));
            entry.last_run_output = Some(first_chars(message.as_str(), 500));
        },
    }
}

/// Records a sunrise/sunset run: the entry counts as fired on `today`, and
/// the run's time and outcome are kept as for any run.
pub fn record_sun_run(
    entry: &mut TimedAutomation,
    today: &str,
    ran_at: Option<u64>,
    outcome: &Result<(), String>,
)
    ensures
        final(entry).last_triggered_date is Some && final(entry).last_triggered_date->0@ == today@,
        final(entry).last_run_at == ran_at,
        match outcome {
            Ok(()) => final(entry).last_run_status is Some && final(entry).last_run_status->0@
                == "success"@ && final(entry).last_run_output is None,
            Err(m) => final(entry).last_run_status is Some && final(entry).last_run_status->0@
                == "error"@ && final(entry).last_run_output is Some
                && final(entry).last_run_output->0@ == m@.take(if 500 <= m@.len() {
                500
            } else {
                m@.len() as int
            }),
        },
        final(entry).id == old(entry).id,
        final(entry).automation_id == old(entry).automation_id,
        final(entry).trigger_kind == old(entry).trigger_kind,
        final(entry).time == old(entry).time,
        final(entry).days == old(entry).days,
        final(entry).enabled == old(entry).enabled,
        final(entry).created_at == old(entry).created_at,
        final(entry).updated_at == old(entry).updated_at,
{
    entry.last_triggered_date = Some(owned(today));
    record_run_outcome(entry, ran_at, outcome);
}

/// Whether an entry gets a system job of its own: clock triggers do;
/// sunrise/sunset entries share the periodic checker.
pub fn needs_own_job(entry: &TimedAutomation) -> (r: bool)
    ensures
        r == (entry.trigger_kind@ == "clock"@),
{
    str_eq(entry.trigger_kind.as_str(), "clock")
}

/// Stores a saved entry: it replaces the first entry with its id, or is
/// added at the end.
pub fn save_timed_entry(entries: Vec<TimedAutomation>, entry: TimedAutomation) -> (r: Vec<TimedAutomation>)
    ensures
        (exists|k: int| 0 <= k < entries@.len() && entries@[k].id@ == entry.id@) ==> exists|k: int|
            0 <= k < entries@.len() && entries@[k].id@ == entry.id@ && (forall|j: int|
                0 <= j < k ==> entries@[j].id@ != entry.id@) && r@ == entries@.update(k, entry),
        (forall|k: int| 0 <= k < entries@.len() ==> entries@[k].id@ != entry.id@) ==> r@
            == entries@.push(entry),
{
    let mut i: usize = 0;
    let mut found = false;
    while i < entries.len()
        invariant
            i <= entries@.len(),
            forall|j: int| 0 <= j < i ==> entries@[j].id@ != entry.id@,
            found ==> i < entries@.len() && entries@[i as int].id@ == entry.id@,
        ensures
            forall|j: int| 0 <= j < i ==> entries@[j].id@ != entry.id@,
            found ==> i < entries@.len() && entries@[i as int].id@ == entry.id@,
            !found ==> i == entries@.len(),
        decreases entries@.len() - i + (if found {
            0int
        } else {
            1int
        }),
    {
        if entries[i].id == entry.id {
            found = true;
            break;
        }
        i = i + 1;
    }
    let ghost e0 = entries@;
    let ghost k = i as int;
    let mut all = entries;
    if found {
        all.set(i, entry);
        assert(0 <= k < e0.len() && e0[k].id@ == entry.id@ && (forall|j: int|
            0 <= j < k ==> e0[j].id@ != entry.id@) && all@ == e0.update(k, entry));
    } else {
        all.push(entry);
    }
    all
}

/// Whether a list of weekday keys holds `d`.
pub open spec fn days_contain(days: Seq<String>, d: Seq<char>) -> bool {
    exists|i: int| 0 <= i < days.len() && days[i]@ == d
}

/// Whether a sunrise/sunset entry is due now: enabled, not yet fired
/// today, scheduled for today's weekday, its event time for today known
/// and reached, and its automation present.
pub open spec fn sun_entry_due(
    e: TimedAutomation,
    automations: Seq<Automation>,
    now_minutes: int,
    today: Seq<char>,
    weekday: Seq<char>,
    target: Result<Option<(u32, u32)>, Seq<char>>,
) -> bool {
    &&& e.enabled
    &&& sun_triggered(e)
    &&& !(e.last_triggered_date is Some && e.last_triggered_date->0@ == today)
    &&& (e.days@.len() == 0 || days_contain(e.days@, weekday))
    &&& target matches Ok(Some((h, m))) && now_minutes >= h * 60 + m
    &&& exists|a: int| 0 <= a < automations.len() && automations[a].id@ == e.automation_id@
}

/// Whether `days` holds `d`.
pub fn days_contain_exec(days: &Vec<String>, d: &str) -> (r: bool)
    ensures
        r == days_contain(days@, d@),
{
    let mut i: usize = 0;
    while i < days.len()
        invariant
            i <= days@.len(),
            forall|k: int| 0 <= k < i ==> days@[k]@ != d@,
        decreases days@.len() - i,
    {
        if str_eq(days[i].as_str(), d) {
            return true;
        }
        i = i + 1;
    }
    false
}

/// The automation a sunrise/sunset entry runs now, if it is due.
pub fn sun_entry_due_now(
    e: &TimedAutomation,
    automations: &[Automation],
    now_minutes: u32,
    today: &str,
    weekday: &str,
    target: &Result<Option<(u32, u32)>, String>,
) -> (r: Option<usize>)
    ensures
        match r {
            Some(a) => a < automations@.len() && automations@[a as int].id@ == e.automation_id@
                && forall|b: int| 0 <= b < a ==> automations@[b].id@ != e.automation_id@,
            None => true,
        },
        r is Some <==> sun_entry_due(
            *e,
            automations@,
            now_minutes as int,
            today@,
            weekday@,
            match target {
                Ok(t) => Ok(*t),
                Err(m) => Err(m@),
            },
        ),
        r is Some ==> e.days@.len() == 0 || exists|d: int| 0 <= d < e.days@.len() && e.days@[d]@ == weekday@,
{
    proof {
        if sun_entry_due(
            *e,
            automations@,
            now_minutes as int,
            today@,
            weekday@,
            match target {
                Ok(t) => Ok(*t),
                Err(m) => Err(m@),
            },
        ) {
            lemma_due_entries_are_scheduled(
                *e,
                automations@,
                now_minutes as int,
                today@,
                weekday@,
                match target {
                    Ok(t) => Ok(*t),
                    Err(m) => Err(m@),
                },
            );
        }
    }
    if !e.enabled {
        return None;
    }
    if !(str_eq(e.trigger_kind.as_str(), "sunrise") || str_eq(e.trigger_kind.as_str(), "sunset")) {
        return None;
    }
    match &e.last_triggered_date {
        Some(d) => {
            if str_eq(d.as_str(), today) {
                return None;
            }
        },
        None => {},
    }
    if e.days.len() > 0 && !days_contain_exec(&e.days, weekday) {
        return None;
    }
    match target {
        Ok(Some((h, m))) => {
            if (now_minutes as u64) < (*h as u64) * 60 + (*m as u64) {
                return None;
            }
        },
        _ => {
            return None;
        },
    }
    find_automation(automations, &e.automation_id)
}

/// The periodic sunrise/sunset check: which entries run now, in order, with
/// the automation each runs. `targets[i]` is the resolved event time of
/// `entries[i]` for today.
pub fn check_sun_timed_automations(
    entries: &[TimedAutomation],
    automations: &[Automation],
    now: (u32, u32),
    today: &str,
    weekday: &str,
    targets: &Vec<Result<Option<(u32, u32)>, String>>,
) -> (r: Vec<(usize, usize)>)
    requires
        targets@.len() == entries@.len(),
        now.0 < 24 && now.1 < 60,
    ensures
        forall|k: int|
            0 <= k < r@.len() ==> {
                let (i, a) = #[trigger] r@[k];
                &&& i < entries@.len()
                &&& a < automations@.len()
                &&& automations@[a as int].id@ == entries@[i as int].automation_id@
                &&& forall|b: int|
                    0 <= b < a ==> automations@[b].id@ != entries@[i as int].automation_id@
            },
        forall|k: int, l: int| 0 <= k < l < r@.len() ==> r@[k].0 < r@[l].0,
        forall|k: int|
            0 <= k < r@.len() ==> {
                let e = #[trigger] entries@[r@[k].0 as int];
                &&& e.enabled
                &&& e.days@.len() == 0 || exists|d: int| 0 <= d < e.days@.len() && e.days@[d]@ == weekday@
                &&& !(e.last_triggered_date matches Some(t) && t@ == today@)
            },
        forall|i: int|
            0 <= i < entries@.len() ==> (sun_entry_due(
                entries@[i],
                automations@,
                now.0 * 60 + now.1,
                today@,
                weekday@,
                match targets@[i] {
                    Ok(t) => Ok(t),
                    Err(m) => Err(m@),
                },
            ) <==> exists|k: int| 0 <= k < r@.len() && #[trigger] r@[k].0 == i),
{
    let now_minutes: u32 = now.0 * 60 + now.1;
    let mut r: Vec<(usize, usize)> = Vec::new();
    let mut i: usize = 0;
    while i < entries.len()
        invariant
            i <= entries@.len(),
            targets@.len() == entries@.len(),
            now_minutes == now.0 * 60 + now.1,
            forall|k: int|
                0 <= k < r@.len() ==> {
                    let (ei, a) = #[trigger] r@[k];
                    &&& ei < i
                    &&& a < automations@.len()
                    &&& automations@[a as int].id@ == entries@[ei as int].automation_id@
                    &&& forall|b: int|
                        0 <= b < a ==> automations@[b].id@ != entries@[ei as int].automation_id@
                },
            forall|k: int, l: int| 0 <= k < l < r@.len() ==> r@[k].0 < r@[l].0,
            forall|j: int|
                0 <= j < i ==> (sun_entry_due(
                    entries@[j],
                    automations@,
                    now.0 * 60 + now.1,
                    today@,
                    weekday@,
                    match targets@[j] {
                        Ok(t) => Ok(t),
                        Err(m) => Err(m@),
                    },
                ) <==> exists|k: int| 0 <= k < r@.len() && #[trigger] r@[k].0 == j),
        decreases entries@.len() - i,
    {
        let ghost old_r = r@;
        let chosen = sun_entry_due_now(&entries[i], automations, now_minutes, today, weekday, &targets[i]);
        assert(entries@[i as int] == entries[i as int]);
        match chosen {
            Some(a) => {
                r.push((i, a));
            },
            None => {},
        }
        assert forall|j: int| 0 <= j < i + 1 implies (sun_entry_due(
            entries@[j],
            automations@,
            now.0 * 60 + now.1,
            today@,
            weekday@,
            match targets@[j] {
                Ok(t) => Ok(t),
                Err(m) => Err(m@),
            },
        ) <==> exists|k: int| 0 <= k < r@.len() && #[trigger] r@[k].0 == j) by {
            if j < i {
                if exists|k: int| 0 <= k < r@.len() && #[trigger] r@[k].0 == j {
                    let k = choose|k: int| 0 <= k < r@.len() && #[trigger] r@[k].0 == j;
                    assert(k < old_r.len());
                    assert(old_r[k].0 == j);
                }
                if exists|k: int| 0 <= k < old_r.len() && #[trigger] old_r[k].0 == j {
                    let k = choose|k: int| 0 <= k < old_r.len() && #[trigger] old_r[k].0 == j;
                    assert(r@[k].0 == j);
                }
            } else {
                if chosen is Some {
                    assert(r@[r@.len() - 1].0 == j);
                } else {
                    if exists|k: int| 0 <= k < r@.len() && #[trigger] r@[k].0 == j {
                        let k = choose|k: int| 0 <= k < r@.len() && #[trigger] r@[k].0 == j;
                        assert(old_r[k].0 < i);
                    }
                }
            }
        }
        i = i + 1;
    }
    proof {
        assert forall|k: int| 0 <= k < r@.len() implies {
            let e = #[trigger] entries@[r@[k].0 as int];
            &&& e.enabled
            &&& e.days@.len() == 0 || exists|d: int| 0 <= d < e.days@.len() && e.days@[d]@ == weekday@
            &&& !(e.last_triggered_date matches Some(t) && t@ == today@)
        } by {
            let i = r@[k].0 as int;
            assert(exists|l: int| 0 <= l < r@.len() && #[trigger] r@[l].0 == i);
            lemma_due_entries_are_scheduled(
                entries@[i],
                automations@,
                now.0 * 60 + now.1,
                today@,
                weekday@,
                match targets@[i] {
                    Ok(t) => Ok(t),
                    Err(m) => Err(m@),
                },
            );
        }
    }
    r
}

/// A sunrise/sunset entry is due only when it is enabled, is triggered by
/// the sun, has not fired today, is scheduled for today's weekday (an empty
/// day list means every day), today's event time is known and reached, and
/// its automation exists.
pub proof fn lemma_due_entries_are_scheduled(
    e: TimedAutomation,
    automations: Seq<Automation>,
    now_minutes: int,
    today: Seq<char>,
    weekday: Seq<char>,
    target: Result<Option<(u32, u32)>, Seq<char>>,
)
    requires
        sun_entry_due(e, automations, now_minutes, today, weekday, target),
    ensures
        e.enabled,
        e.trigger_kind@ == "sunrise"@ || e.trigger_kind@ == "sunset"@,
        !(e.last_triggered_date matches Some(t) && t@ == today),
        e.days@.len() == 0 || exists|d: int| 0 <= d < e.days@.len() && e.days@[d]@ == weekday,
        target matches Ok(Some((h, m))) && h * 60 + m <= now_minutes,
        exists|a: int| 0 <= a < automations.len() && automations[a].id@ == e.automation_id@,
{
}

/// Conversely, an enabled sunrise/sunset entry that has not fired today,
/// is scheduled for today's weekday (or every day), whose event time today
/// is known and reached, and whose automation exists, is due.
pub proof fn lemma_scheduled_entries_are_due(
    e: TimedAutomation,
    automations: Seq<Automation>,
    now_minutes: int,
    today: Seq<char>,
    weekday: Seq<char>,
    h: u32,
    m: u32,
    a: int,
)
    requires
        e.enabled,
        e.trigger_kind@ == "sunrise"@ || e.trigger_kind@ == "sunset"@,
        !(e.last_triggered_date matches Some(t) && t@ == today),
        e.days@.len() == 0 || exists|d: int| 0 <= d < e.days@.len() && e.days@[d]@ == weekday,
        h * 60 + m <= now_minutes,
        0 <= a < automations.len(),
        automations[a].id@ == e.automation_id@,
    ensures
        sun_entry_due(e, automations, now_minutes, today, weekday, Ok(Some((h, m)))),
{
}

/// An entry that fired today, as recorded by a sun run, is not due again
/// until the date changes.
pub proof fn lemma_fired_today_not_due(
    e: TimedAutomation,
    automations: Seq<Automation>,
    now_minutes: int,
    today: Seq<char>,
    weekday: Seq<char>,
    target: Result<Option<(u32, u32)>, Seq<char>>,
)
    requires
        e.last_triggered_date matches Some(t) && t@ == today,
    ensures
        !sun_entry_due(e, automations, now_minutes, today, weekday, target),
{
}

/// Each of the seven weekday keys has its own systemd name: the key with
/// its first letter in upper case.
pub proof fn lemma_systemd_weekday_names(day: Seq<char>)
    requires
        day == "mon"@ || day == "tue"@ || day == "wed"@ || day == "thu"@ || day == "fri"@ || day
            == "sat"@ || day == "sun"@,
    ensures
        systemd_weekday(day).len() == 3,
        systemd_weekday(day)[0] as u32 + 32 == day[0] as u32,
        systemd_weekday(day)[1] == day[1],
        systemd_weekday(day)[2] == day[2],
{
    reveal_strlit("mon");
    reveal_strlit("tue");
    reveal_strlit("wed");
    reveal_strlit("thu");
    reveal_strlit("fri");
    reveal_strlit("sat");
    reveal_strlit("sun");
    reveal_strlit("Mon");
    reveal_strlit("Tue");
    reveal_strlit("Wed");
    reveal_strlit("Thu");
    reveal_strlit("Fri");
    reveal_strlit("Sat");
    reveal_strlit("Sun");
}

/// Two different weekday keys never share a systemd name.
pub proof fn lemma_systemd_weekday_distinct(a: Seq<char>, b: Seq<char>)
    requires
        a == "mon"@ || a == "tue"@ || a == "wed"@ || a == "thu"@ || a == "fri"@ || a == "sat"@
            || a == "sun"@,
        b == "mon"@ || b == "tue"@ || b == "wed"@ || b == "thu"@ || b == "fri"@ || b == "sat"@
            || b == "sun"@,
        a != b,
    ensures
        systemd_weekday(a) != systemd_weekday(b),
{
    lemma_systemd_weekday_names(a);
    lemma_systemd_weekday_names(b);
    reveal_strlit("mon");
    reveal_strlit("tue");
    reveal_strlit("wed");
    reveal_strlit("thu");
    reveal_strlit("fri");
    reveal_strlit("sat");
    reveal_strlit("sun");
    if systemd_weekday(a) == systemd_weekday(b) {
        assert(a[1] == b[1] && a[2] == b[2]);
        assert(false);
    }
}

/// The `OnCalendar=` expression ends in the time of day it was made for:
/// its `HH:MM` reads back as that hour and minute, followed by `:00`
/// seconds; it begins with the systemd day names and a space when days are
/// chosen, and with `*-*-* ` otherwise.
pub proof fn lemma_on_calendar_time(days: Seq<String>, h: u32, m: u32)
    requires
        h < 24,
        m < 60,
    ensures
        ({
            let oc = on_calendar(days, h, m);
            &&& oc.len() >= 14
            &&& time_of_day(oc.subrange(oc.len() - 8, oc.len() - 3)) == Some((h, m))
            &&& oc.subrange(oc.len() - 3, oc.len() as int) == ":00"@
            &&& oc.subrange(oc.len() - 14, oc.len() - 8) == "*-*-* "@
            &&& days.len() == 0 ==> oc.len() == 14
            &&& days.len() > 0 ==> oc.take(oc.len() - 14) == systemd_days(days) + " "@
        }),
{
    reveal_strlit("*-*-* ");
    reveal_strlit(":");
    reveal_strlit(":00");
    reveal_strlit(" ");
    lemma_time_of_day_round_trip(h, m);
    let time = "*-*-* "@ + two_digits(h) + ":"@ + two_digits(m) + ":00"@;
    let oc = on_calendar(days, h, m);
    assert(time.len() == 14);
    assert(time.subrange(6, 11) =~= two_digits(h) + seq![':'] + two_digits(m));
    assert(time.subrange(11, 14) =~= ":00"@);
    assert(time.subrange(0, 6) =~= "*-*-* "@);
    if days.len() > 0 {
        let pre = systemd_days(days) + " "@;
        assert(oc =~= pre + time);
        assert(oc.subrange(oc.len() - 8, oc.len() - 3) =~= time.subrange(6, 11));
        assert(oc.subrange(oc.len() - 3, oc.len() as int) =~= time.subrange(11, 14));
        assert(oc.subrange(oc.len() - 14, oc.len() - 8) =~= time.subrange(0, 6));
        assert(oc.take(oc.len() - 14) =~= pre);
    } else {
        assert(oc == time);
    }
}

proof fn lemma_two_digits_parse(n: u32)
    requires
        n < 100,
    ensures
        parse_u32(two_digits(n)) == Some(n),
        forall|i: int| 0 <= i < 2 ==> two_digits(n)[i] != ':',
{
    let d = two_digits(n);
    assert(d.len() == 2);
    assert(d[0] == ((n / 10) + 48) as char);
    assert(d[1] == ((n % 10) + 48) as char);
    assert(all_digits(d));
    assert((((n / 10) + 48) as char) as u32 == (n / 10) + 48);
    assert((((n % 10) + 48) as char) as u32 == (n % 10) + 48);
    assert(d.drop_last() =~= seq![d[0]]);
    assert(seq![d[0]].drop_last() =~= Seq::<char>::empty());
    assert(d.drop_last().drop_last() =~= Seq::<char>::empty());
    assert(digits_value(Seq::<char>::empty()) == 0);
    assert(d.drop_last().len() == 1 && d.drop_last().last() == d[0]);
    assert((d[0] as u32) - 48 == n / 10);
    assert((d[1] as u32) - 48 == n % 10);
    assert(digits_value(d.drop_last()) == digits_value(d.drop_last().drop_last()) * 10 + ((d[0] as u32) - 48) as nat);
    assert(digits_value(d.drop_last()) == (n / 10) as nat);
    assert(digits_value(d) == (n / 10) * 10 + n % 10);
    assert((n / 10) * 10 + n % 10 == n);
    assert(d[0] != '+');
}

/// A time written `HH:MM` with two digits each, as the app writes it, reads
/// back as that time.
pub proof fn lemma_time_of_day_round_trip(h: u32, m: u32)
    requires
        h < 24,
        m < 60,
    ensures
        time_of_day(two_digits(h) + seq![':'] + two_digits(m)) == Some((h, m)),
{
    lemma_two_digits_parse(h);
    lemma_two_digits_parse(m);
    let a = two_digits(h);
    let b = two_digits(m);
    let s = a + seq![':'] + b;
    reveal_with_fuel(text::split_on, 6);
    assert(s.drop_last() =~= seq![a[0], a[1], ':', b[0]]);
    assert(s.drop_last().drop_last() =~= seq![a[0], a[1], ':']);
    assert(s.drop_last().drop_last().drop_last() =~= seq![a[0], a[1]]);
    assert(s.drop_last().drop_last().drop_last().drop_last() =~= seq![a[0]]);
    assert(seq![a[0]].drop_last() =~= Seq::<char>::empty());
    assert(seq![a[0], a[1]].drop_last() =~= seq![a[0]]);
    assert(seq![a[0], a[1], ':'].drop_last() =~= seq![a[0], a[1]]);
    assert(seq![a[0], a[1], ':', b[0]].drop_last() =~= seq![a[0], a[1], ':']);
    let parts = text::split_on(s, ':');
    assert(a =~= seq![a[0], a[1]]);
    assert(b =~= seq![b[0], b[1]]);
    let p1 = text::split_on(seq![a[0]], ':');
    assert(text::split_on(Seq::<char>::empty(), ':') == seq![Seq::<char>::empty()]);
    assert(p1 =~= seq![seq![a[0]]]);
    let p2 = text::split_on(seq![a[0], a[1]], ':');
    assert(seq![a[0]].push(a[1]) =~= a);
    assert(p2 =~= seq![a]);
    let p3 = text::split_on(seq![a[0], a[1], ':'], ':');
    assert(p3 =~= seq![a, Seq::<char>::empty()]);
    let p4 = text::split_on(seq![a[0], a[1], ':', b[0]], ':');
    assert(Seq::<char>::empty().push(b[0]) =~= seq![b[0]]);
    assert(p4 =~= seq![a, seq![b[0]]]);
    assert(seq![b[0]].push(b[1]) =~= b);
    assert(parts =~= seq![a, b]);
}

} // verus!
