//! The forms of the terminal edition: the schedule of an automation, the
//! alias form and the automation editor. Each key changes the form in place
//! and answers what the caller has to do next (close, save, ask ...).

use vstd::prelude::*;
use crate::text_input::{Key, KeyCode, TextInput};
use crate::timed::TimedAutomation;
use crate::automation::{Automation, AutomationStep, MAX_AUTOMATION_STEPS};
use crate::shell_alias;
use crate::tui_keys::{cycle, next_of, previous_of};
use crate::message::{owned, str_eq};

verus! {

/// Where a weekday key stands in the week, Monday first; other texts come
/// after Sunday.
pub open spec fn day_rank(d: Seq<char>) -> int {
    if d == "mon"@ {
        0
    } else if d == "tue"@ {
        1
    } else if d == "wed"@ {
        2
    } else if d == "thu"@ {
        3
    } else if d == "fri"@ {
        4
    } else if d == "sat"@ {
        5
    } else if d == "sun"@ {
        6
    } else {
        7
    }
}

/// The days of one rank, in their order.
pub open spec fn with_rank(days: Seq<Seq<char>>, r: int) -> Seq<Seq<char>> {
    days.filter(|d: Seq<char>| day_rank(d) == r)
}

/// The days of rank below `n`, rank by rank, each rank in the order given.
pub open spec fn ranked_below(days: Seq<Seq<char>>, n: int) -> Seq<Seq<char>>
    decreases n,
{
    if n <= 0 {
        Seq::empty()
    } else {
        ranked_below(days, n - 1) + with_rank(days, n - 1)
    }
}

/// The days sorted by weekday, Monday first; days of the same rank keep
/// their order, unknown texts go last.
pub open spec fn in_week_order(days: Seq<Seq<char>>) -> Seq<Seq<char>> {
    ranked_below(days, 8)
}

/// Where `d` first occurs in `days`; -1 where it does not.
pub open spec fn first_index(days: Seq<Seq<char>>, d: Seq<char>) -> int
    decreases days.len(),
{
    if days.len() == 0 {
        -1
    } else if days[0] == d {
        0
    } else {
        let i = first_index(days.drop_first(), d);
        if i < 0 {
            -1
        } else {
            i + 1
        }
    }
}

/// The chosen days after choosing `d` again: a chosen day is taken out
/// (its first occurrence), another is added and the list sorted by weekday.
pub open spec fn toggled_days(days: Seq<Seq<char>>, d: Seq<char>) -> Seq<Seq<char>> {
    let i = first_index(days, d);
    if i >= 0 {
        days.remove(i)
    } else {
        in_week_order(days.push(d))
    }
}

/// The views of a list of texts.
pub open spec fn texts(v: Seq<String>) -> Seq<Seq<char>> {
    v.map_values(|s: String| s@)
}

pub(crate) proof fn lemma_first_index(days: Seq<Seq<char>>, d: Seq<char>, i: int)
    requires
        0 <= i <= days.len(),
        forall|j: int| 0 <= j < i ==> days[j] != d,
    ensures
        i < days.len() && days[i] == d ==> first_index(days, d) == i,
        i == days.len() ==> first_index(days, d) == -1,
    decreases i,
{
    if i > 0 {
        lemma_first_index(days.drop_first(), d, i - 1);
    } else if days.len() > 0 {
    }
}

fn rank_of(d: &str) -> (r: u32)
    ensures
        r == day_rank(d@),
{
    if str_eq(d, "mon") {
        0
    } else if str_eq(d, "tue") {
        1
    } else if str_eq(d, "wed") {
        2
    } else if str_eq(d, "thu") {
        3
    } else if str_eq(d, "fri") {
        4
    } else if str_eq(d, "sat") {
        5
    } else if str_eq(d, "sun") {
        6
    } else {
        7
    }
}

/// The days sorted by weekday, Monday first, unknown texts last; days of
/// one rank keep their order.
pub fn sort_by_weekday(days: &Vec<String>) -> (r: Vec<String>)
    ensures
        texts(r@) == in_week_order(texts(days@)),
{
    let ghost all = texts(days@);
    let mut r: Vec<String> = Vec::new();
    let mut rank: u32 = 0;
    while rank < 8
        invariant
            rank <= 8,
            all == texts(days@),
            texts(r@) == ranked_below(all, rank as int),
        decreases 8 - rank,
    {
        let mut i: usize = 0;
        assert(all.take(0).filter(|d: Seq<char>| day_rank(d) == rank as int) =~= Seq::empty()) by {
            reveal(Seq::filter);
        }
        assert(texts(r@) =~= ranked_below(all, rank as int) + all.take(0).filter(
            |d: Seq<char>| day_rank(d) == rank as int,
        ));
        while i < days.len()
            invariant
                rank < 8,
                i <= days.len(),
                all == texts(days@),
                texts(r@) == ranked_below(all, rank as int) + all.take(i as int).filter(
                    |d: Seq<char>| day_rank(d) == rank as int,
                ),
            decreases days.len() - i,
        {
            let d = days[i].clone();
            let ghost p = |x: Seq<char>| day_rank(x) == rank as int;
            assert(all.take(i + 1) =~= all.take(i as int).push(all[i as int]));
            proof {
                all.take(i as int).lemma_filter_push(all[i as int], p);
            }
            let ghost before = texts(r@);
            assert(d@ == all[i as int]);
            if rank_of(d.as_str()) == rank {
                assert(p(all[i as int]));
                r.push(d);
                assert(texts(r@) =~= before.push(all[i as int]));
                assert(texts(r@) =~= ranked_below(all, rank as int) + all.take(i + 1).filter(p));
            } else {
                assert(texts(r@) =~= ranked_below(all, rank as int) + all.take(i + 1).filter(p));
            }
            i = i + 1;
        }
        assert(all.take(days.len() as int) =~= all);
        rank = rank + 1;
    }
    r
}

/// Chooses a weekday, or takes it out where it was chosen; the list stays
/// sorted by weekday.
pub fn toggle_day(days: &mut Vec<String>, day: &str)
    ensures
        texts(final(days)@) == toggled_days(texts(old(days)@), day@),
{
    let ghost all = texts(days@);
    let mut i: usize = 0;
    while i < days.len()
        invariant
            i <= days.len(),
            all == texts(days@),
            all == texts(old(days)@),
            forall|j: int| 0 <= j < i ==> all[j] != day@,
        decreases days.len() - i,
    {
        if str_eq(days[i].as_str(), day) {
            proof {
                lemma_first_index(all, day@, i as int);
            }
            days.remove(i);
            assert(texts(days@) =~= all.remove(i as int));
            return;
        }
        i = i + 1;
    }
    proof {
        lemma_first_index(all, day@, i as int);
    }
    days.push(owned(day));
    assert(texts(days@) =~= all.push(day@));
    let sorted = sort_by_weekday(days);
    *days = sorted;
}


proof fn lemma_first_index_found(days: Seq<Seq<char>>, d: Seq<char>)
    ensures
        first_index(days, d) >= 0 <==> days.contains(d),
        first_index(days, d) >= 0 ==> first_index(days, d) < days.len() && days[first_index(
            days,
            d,
        )] == d,
    decreases days.len(),
{
    if days.len() > 0 {
        lemma_first_index_found(days.drop_first(), d);
        if days[0] != d {
            if days.contains(d) {
                let j = choose|j: int| 0 <= j < days.len() && days[j] == d;
                assert(days.drop_first()[j - 1] == d);
            }
            if days.drop_first().contains(d) {
                let j = choose|j: int| 0 <= j < days.len() - 1 && days.drop_first()[j] == d;
                assert(days[j + 1] == d);
            }
        } else {
            assert(days[0] == d);
        }
    }
}

proof fn lemma_ranked_below_contains(s: Seq<Seq<char>>, n: int, x: Seq<char>)
    requires
        n >= 0,
    ensures
        ranked_below(s, n).contains(x) <==> (s.contains(x) && day_rank(x) < n),
    decreases n,
{
    if n > 0 {
        lemma_ranked_below_contains(s, n - 1, x);
        let p = |d: Seq<char>| day_rank(d) == n - 1;
        let left = ranked_below(s, n - 1);
        let right = with_rank(s, n - 1);
        if right.contains(x) {
            s.lemma_filter_contains_rev(p, x);
            let k = choose|k: int| 0 <= k < right.len() && right[k] == x;
            s.lemma_filter_pred(p, k);
        }
        if s.contains(x) && day_rank(x) == n - 1 {
            let k = choose|k: int| 0 <= k < s.len() && s[k] == x;
            s.lemma_filter_contains(p, k);
        }
        if (left + right).contains(x) {
            let k = choose|k: int| 0 <= k < (left + right).len() && (left + right)[k] == x;
            if k < left.len() {
                assert(left[k] == x);
            } else {
                assert(right[k - left.len()] == x);
            }
        }
        if left.contains(x) {
            let k = choose|k: int| 0 <= k < left.len() && left[k] == x;
            assert((left + right)[k] == x);
        }
        if right.contains(x) {
            let k = choose|k: int| 0 <= k < right.len() && right[k] == x;
            assert((left + right)[k + left.len()] == x);
        }
    }
}

/// Choosing a day again flips whether it is chosen, and every other day
/// stays chosen or not chosen as it was.
pub proof fn lemma_toggle_day_flips(days: Seq<Seq<char>>, d: Seq<char>, x: Seq<char>)
    requires
        days.no_duplicates(),
    ensures
        toggled_days(days, d).contains(d) == !days.contains(d),
        x != d ==> toggled_days(days, d).contains(x) == days.contains(x),
{
    lemma_first_index_found(days, d);
    let i = first_index(days, d);
    if i >= 0 {
        let r = days.remove(i);
        if r.contains(d) {
            let k = choose|k: int| 0 <= k < r.len() && r[k] == d;
            if k < i {
                assert(days[k] == d);
            } else {
                assert(days[k + 1] == d);
            }
        }
        if x != d {
            if days.contains(x) {
                let k = choose|k: int| 0 <= k < days.len() && days[k] == x;
                if k < i {
                    assert(r[k] == x);
                } else {
                    assert(r[k - 1] == x);
                }
            }
            if r.contains(x) {
                let k = choose|k: int| 0 <= k < r.len() && r[k] == x;
                if k < i {
                    assert(days[k] == x);
                } else {
                    assert(days[k + 1] == x);
                }
            }
        }
    } else {
        let pushed = days.push(d);
        lemma_ranked_below_contains(pushed, 8, d);
        lemma_ranked_below_contains(pushed, 8, x);
        assert(pushed[days.len() as int] == d);
        if days.contains(x) {
            let k = choose|k: int| 0 <= k < days.len() && days[k] == x;
            assert(pushed[k] == x);
        }
        if pushed.contains(x) && x != d {
            let k = choose|k: int| 0 <= k < pushed.len() && pushed[k] == x;
            assert(days[k] == x);
        }
    }
}


/// The schedule dialog of an automation.
pub struct ScheduleForm {
    /// The schedule being edited.
    pub entry: TimedAutomation,
    /// The name of the automation, for the title.
    pub automation_name: String,
    /// Whether the automation has a saved schedule.
    pub exists: bool,
    /// The clock time field.
    pub time: TextInput,
    /// The focused field: trigger, time, days, enabled.
    pub focus: usize,
    /// The weekday under the cursor, Monday first.
    pub day_cursor: usize,
    /// The error shown under the form.
    pub error: String,
}

/// What the caller does after a key in the schedule dialog.
pub enum ScheduleKey {
    /// Close the dialog.
    Close,
    /// Ask before removing the saved schedule.
    AskRemove,
    /// Check and save the schedule.
    Save,
    /// Switch the sun region, forward (true) or back.
    SunRegion(bool),
    /// Keep the dialog open.
    Stay,
}

/// The trigger kinds in the order the dialog steps through them.
pub open spec fn trigger_at(i: int) -> Seq<char> {
    if i == 0 {
        "clock"@
    } else if i == 1 {
        "sunrise"@
    } else {
        "sunset"@
    }
}

/// Where a trigger kind stands among the kinds; an unknown kind counts as
/// the clock.
pub open spec fn trigger_index(kind: Seq<char>) -> int {
    if kind == "sunrise"@ {
        1
    } else if kind == "sunset"@ {
        2
    } else {
        0
    }
}

/// Left arrow or `h`.
pub open spec fn left_key(key: Key) -> bool {
    key.code == KeyCode::Left || key.code == KeyCode::Char('h')
}

/// Right arrow or `l`.
pub open spec fn right_key(key: Key) -> bool {
    key.code == KeyCode::Right || key.code == KeyCode::Char('l')
}

/// Control and the letter `c`.
pub open spec fn ctrl_char(key: Key, c: char) -> bool {
    key.ctrl && key.code == KeyCode::Char(c)
}

/// A key that moves between the fields of the schedule dialog.
pub open spec fn field_move(key: Key) -> bool {
    key.code == KeyCode::Down || key.code == KeyCode::Tab || key.code == KeyCode::Up || key.code
        == KeyCode::BackTab
}

/// A digit `1` to `7`: the weekday it picks, Monday first.
pub open spec fn weekday_digit(key: Key) -> Option<int> {
    match key.code {
        KeyCode::Char(c) => if '1' <= c && c <= '7' {
            Some((c as int) - ('1' as int))
        } else {
            None
        },
        _ => None,
    }
}

/// Whether the time field takes a key: without Control or Alt, only digits
/// and `:`.
pub open spec fn time_allows(key: Key) -> bool {
    match key.code {
        KeyCode::Char(c) => !(!key.ctrl && !key.alt) || ('0' <= c && c <= '9') || c == ':',
        _ => true,
    }
}

/// What the caller does after a key in the schedule dialog: Esc closes,
/// Control+D asks before removing a saved schedule, Enter and Control+S
/// save, Left and Right on the sun field switch the region.
pub open spec fn schedule_decision(form: ScheduleForm, key: Key) -> ScheduleKey {
    if key.code == KeyCode::Esc {
        ScheduleKey::Close
    } else if ctrl_char(key, 'd') && form.exists {
        ScheduleKey::AskRemove
    } else if key.code == KeyCode::Enter || ctrl_char(key, 's') {
        ScheduleKey::Save
    } else if !field_move(key) && form.focus == 1 && form.entry.trigger_kind@ != "clock"@ && (
    left_key(key) || right_key(key)) {
        ScheduleKey::SunRegion(right_key(key))
    } else {
        ScheduleKey::Stay
    }
}

/// The focused field after a key: Down and Tab go to the next of the four
/// fields, Up and Shift+Tab to the previous.
pub open spec fn schedule_focus(focus: int, key: Key) -> int {
    if key.code == KeyCode::Down || key.code == KeyCode::Tab {
        next_of(focus, 4)
    } else if key.code == KeyCode::Up || key.code == KeyCode::BackTab {
        previous_of(focus, 4)
    } else {
        focus
    }
}

/// Whether the key switches the trigger kind: on the trigger field, Left,
/// Right or Space.
pub open spec fn switches_trigger(form: ScheduleForm, key: Key) -> bool {
    !field_move(key) && form.focus == 0 && (left_key(key) || right_key(key) || key.code
        == KeyCode::Char(' '))
}

/// The trigger kind after switching: back with Left, forward otherwise.
pub open spec fn switched_trigger(kind: Seq<char>, key: Key) -> Seq<char> {
    if left_key(key) {
        trigger_at(previous_of(trigger_index(kind), 3))
    } else {
        trigger_at(next_of(trigger_index(kind), 3))
    }
}

/// Whether the key goes to the clock time field.
pub open spec fn edits_time(form: ScheduleForm, key: Key) -> bool {
    !field_move(key) && form.focus == 1 && form.entry.trigger_kind@ == "clock"@ && time_allows(key)
}

/// The day cursor after a key on the days field: Left and Right step
/// through the week, a digit jumps to its day.
pub open spec fn day_cursor_after(form: ScheduleForm, key: Key) -> int {
    if field_move(key) || form.focus != 2 {
        form.day_cursor as int
    } else if left_key(key) {
        (form.day_cursor + 6) % 7
    } else if right_key(key) {
        (form.day_cursor + 1) % 7
    } else if key.code == KeyCode::Char(' ') || key.code == KeyCode::Char('x') {
        form.day_cursor as int
    } else if weekday_digit(key) is Some {
        weekday_digit(key)->0
    } else {
        form.day_cursor as int
    }
}

/// The chosen days after a key on the days field: Space and `x` choose the
/// day under the cursor or take it out, a digit does so for its day, `a`
/// and `e` clear the choice (every day).
pub open spec fn days_after(form: ScheduleForm, key: Key) -> Seq<Seq<char>> {
    let days = texts(form.entry.days@);
    if field_move(key) || form.focus != 2 || left_key(key) || right_key(key) {
        days
    } else if key.code == KeyCode::Char(' ') || key.code == KeyCode::Char('x') {
        toggled_days(days, crate::clock::weekday_key_at(form.day_cursor as u32))
    } else if weekday_digit(key) is Some {
        toggled_days(days, crate::clock::weekday_key_at(weekday_digit(key)->0 as u32))
    } else if key.code == KeyCode::Char('a') || key.code == KeyCode::Char('e') {
        Seq::empty()
    } else {
        days
    }
}

/// Whether the key turns the schedule on or off: on the last field, Left,
/// Right or Space.
pub open spec fn switches_enabled(form: ScheduleForm, key: Key) -> bool {
    !field_move(key) && form.focus == 3 && (left_key(key) || right_key(key) || key.code
        == KeyCode::Char(' '))
}

/// The parts of a schedule that the dialog does not edit are kept.
pub open spec fn same_schedule_record(a: TimedAutomation, b: TimedAutomation) -> bool {
    &&& a.id == b.id
    &&& a.automation_id == b.automation_id
    &&& a.time == b.time
    &&& a.created_at == b.created_at
    &&& a.updated_at == b.updated_at
    &&& a.last_run_at == b.last_run_at
    &&& a.last_run_status == b.last_run_status
    &&& a.last_run_output == b.last_run_output
    &&& a.last_triggered_date == b.last_triggered_date
}

fn trigger_name(i: usize) -> (r: &'static str)
    ensures
        r@ == trigger_at(i as int),
{
    if i == 0 {
        "clock"
    } else if i == 1 {
        "sunrise"
    } else {
        "sunset"
    }
}

/// Handles a key in the schedule dialog.
pub fn schedule_key(form: &mut ScheduleForm, key: &Key) -> (r: ScheduleKey)
    requires
        old(form).time.well_formed(),
        old(form).day_cursor < 7,
    ensures
        r == schedule_decision(*old(form), *key),
        final(form).time.well_formed(),
        final(form).day_cursor < 7,
        final(form).exists == old(form).exists,
        final(form).automation_name == old(form).automation_name,
        same_schedule_record(final(form).entry, old(form).entry),
        r is Close || r is AskRemove || r is Save ==> *final(form) == *old(form),
        r is SunRegion || r is Stay ==> {
            &&& final(form).focus == schedule_focus(old(form).focus as int, *key)
            &&& final(form).entry.trigger_kind@ == (if switches_trigger(*old(form), *key) {
                switched_trigger(old(form).entry.trigger_kind@, *key)
            } else {
                old(form).entry.trigger_kind@
            })
            &&& (if edits_time(*old(form), *key) {
                match crate::text_input::apply_key(
                    old(form).time.value@,
                    old(form).time.cursor as int,
                    *key,
                ) {
                    Some((v, c)) => final(form).time.value@ == v && final(form).time.cursor == c,
                    None => final(form).time.value@ == old(form).time.value@
                        && final(form).time.cursor == old(form).time.cursor,
                }
            } else {
                final(form).time == old(form).time
            })
            &&& final(form).day_cursor == day_cursor_after(*old(form), *key)
            &&& texts(final(form).entry.days@) == days_after(*old(form), *key)
            &&& final(form).entry.enabled == (if switches_enabled(*old(form), *key) {
                !old(form).entry.enabled
            } else {
                old(form).entry.enabled
            })
            &&& (if switches_trigger(*old(form), *key) || (edits_time(*old(form), *key)
                && crate::text_input::apply_key(
                old(form).time.value@,
                old(form).time.cursor as int,
                *key,
            ) is Some) {
                final(form).error@.len() == 0
            } else {
                final(form).error == old(form).error
            })
        },
{
    let code = key.code;
    if code == KeyCode::Esc {
        return ScheduleKey::Close;
    }
    if key.ctrl && code == KeyCode::Char('d') && form.exists {
        return ScheduleKey::AskRemove;
    }
    if code == KeyCode::Enter || (key.ctrl && code == KeyCode::Char('s')) {
        return ScheduleKey::Save;
    }
    let left = code == KeyCode::Left || code == KeyCode::Char('h');
    let right = code == KeyCode::Right || code == KeyCode::Char('l');
    if code == KeyCode::Down || code == KeyCode::Tab {
        form.focus = cycle(form.focus, 4, true);
        return ScheduleKey::Stay;
    }
    if code == KeyCode::Up || code == KeyCode::BackTab {
        form.focus = cycle(form.focus, 4, false);
        return ScheduleKey::Stay;
    }
    let clock = str_eq(form.entry.trigger_kind.as_str(), "clock");
    if form.focus == 0 {
        if left || right || code == KeyCode::Char(' ') {
            let current: usize = if str_eq(form.entry.trigger_kind.as_str(), "sunrise") {
                1
            } else if str_eq(form.entry.trigger_kind.as_str(), "sunset") {
                2
            } else {
                0
            };
            let next = cycle(current, 3, !left);
            form.entry.trigger_kind = owned(trigger_name(next));
            form.error = String::new();
        }
        ScheduleKey::Stay
    } else if form.focus == 1 && clock {
        let allowed = match code {
            KeyCode::Char(c) => (key.ctrl || key.alt) || ('0' <= c && c <= '9') || c == ':',
            _ => true,
        };
        if allowed && form.time.handle_key(key) {
            form.error = String::new();
        }
        ScheduleKey::Stay
    } else if form.focus == 1 {
        if left || right {
            ScheduleKey::SunRegion(right)
        } else {
            ScheduleKey::Stay
        }
    } else if form.focus == 2 {
        if left {
            form.day_cursor = (form.day_cursor + 6) % 7;
        } else if right {
            form.day_cursor = (form.day_cursor + 1) % 7;
        } else if code == KeyCode::Char(' ') || code == KeyCode::Char('x') {
            let day = crate::clock::weekday_name(form.day_cursor as u32);
            toggle_day(&mut form.entry.days, day);
        } else {
            match code {
                KeyCode::Char(c) => {
                    if '1' <= c && c <= '7' {
                        let index = (c as u32) - ('1' as u32);
                        form.day_cursor = index as usize;
                        let day = crate::clock::weekday_name(index);
                        toggle_day(&mut form.entry.days, day);
                    } else if c == 'a' || c == 'e' {
                        form.entry.days = Vec::new();
                        assert(texts(form.entry.days@) =~= Seq::empty());
                    }
                },
                _ => {},
            }
        }
        ScheduleKey::Stay
    } else if form.focus == 3 {
        if left || right || code == KeyCode::Char(' ') {
            form.entry.enabled = !form.entry.enabled;
        }
        ScheduleKey::Stay
    } else {
        ScheduleKey::Stay
    }
}


/// How many actions an alias can have.
pub const ALIAS_ACTION_COUNT: usize = 6;

/// The alias actions in the order the form steps through them.
pub open spec fn alias_action_at(i: int) -> Seq<char> {
    if i == 0 {
        "navigate"@
    } else if i == 1 {
        "open"@
    } else if i == 2 {
        "execute"@
    } else if i == 3 {
        "compile_gradle"@
    } else if i == 4 {
        "compile_maven"@
    } else {
        "custom"@
    }
}

/// The alias action of a number, in the order the form steps through them.
pub fn alias_action_name(i: usize) -> (r: &'static str)
    requires
        i < ALIAS_ACTION_COUNT,
    ensures
        r@ == alias_action_at(i as int),
{
    if i == 0 {
        "navigate"
    } else if i == 1 {
        "open"
    } else if i == 2 {
        "execute"
    } else if i == 3 {
        "compile_gradle"
    } else if i == 4 {
        "compile_maven"
    } else {
        "custom"
    }
}

/// The form that creates or edits an alias.
pub struct AliasForm {
    /// The id of the alias being edited; none for a new one.
    pub editing_id: Option<String>,
    /// The command name field.
    pub name: TextInput,
    /// The number of the action.
    pub action: usize,
    /// The path field.
    pub path: TextInput,
    /// The custom command field.
    pub custom: TextInput,
    /// The focused field: name, action, path or command.
    pub focus: usize,
    /// The error shown under the form.
    pub error: String,
    /// The path completions shown under the form.
    pub completions: Vec<String>,
}

/// What the caller does after a key in a form.
pub enum FormKey {
    /// Close the form.
    Close,
    /// Check and save the form.
    Submit,
    /// Complete the path field from the directory it names.
    CompletePath,
    /// Keep the form open.
    Stay,
}

/// The three fields of the alias form.
pub const ALIAS_FORM_FIELDS: usize = 3;

/// What the caller does after a key in the alias form: Esc closes,
/// Control+S or Enter on the last field submits, Tab on the path field
/// completes it.
pub open spec fn alias_form_decision(form: AliasForm, key: Key) -> FormKey {
    if key.code == KeyCode::Esc {
        FormKey::Close
    } else if ctrl_char(key, 's') || (key.code == KeyCode::Enter && form.focus == 2) {
        FormKey::Submit
    } else if key.code == KeyCode::Tab && form.focus == 2 && form.action != 5 {
        FormKey::CompletePath
    } else {
        FormKey::Stay
    }
}

/// The focused field after a key: Enter, Down and Tab go to the next of the
/// three fields, Up and Shift+Tab to the previous.
pub open spec fn alias_form_focus(form: AliasForm, key: Key) -> int {
    let code = key.code;
    if code == KeyCode::Enter || code == KeyCode::Down || (code == KeyCode::Tab && !(form.focus
        == 2 && form.action != 5)) {
        next_of(form.focus as int, 3)
    } else if code == KeyCode::Up || code == KeyCode::BackTab {
        previous_of(form.focus as int, 3)
    } else {
        form.focus as int
    }
}

/// Whether a key switches the action: Left, Right or Space on the action
/// field.
pub open spec fn switches_action(form: AliasForm, key: Key) -> bool {
    form.focus == 1 && (key.code == KeyCode::Left || key.code == KeyCode::Right || key.code
        == KeyCode::Char(' '))
}

/// Whether a key goes to a text field of the alias form.
pub open spec fn edits_alias_text(form: AliasForm, key: Key) -> bool {
    let code = key.code;
    !(code == KeyCode::Enter || code == KeyCode::Down || code == KeyCode::Up || code
        == KeyCode::BackTab || code == KeyCode::Tab) && !switches_action(form, key) && (form.focus
        == 0 || form.focus == 2)
}

/// A text input after a key, as `TextInput::handle_key` leaves it.
pub open spec fn input_after(input: TextInput, key: Key) -> (Seq<char>, int) {
    match crate::text_input::apply_key(input.value@, input.cursor as int, key) {
        Some((v, c)) => (v, c),
        None => (input.value@, input.cursor as int),
    }
}

/// Whether a text input uses a key.
pub open spec fn input_uses(input: TextInput, key: Key) -> bool {
    crate::text_input::apply_key(input.value@, input.cursor as int, key) is Some
}

/// The view of a text input: its text and cursor.
pub open spec fn input_view(input: TextInput) -> (Seq<char>, int) {
    (input.value@, input.cursor as int)
}

/// Handles a key in the alias form.
pub fn alias_form_key(form: &mut AliasForm, key: &Key) -> (r: FormKey)
    requires
        old(form).name.well_formed(),
        old(form).path.well_formed(),
        old(form).custom.well_formed(),
        old(form).action < ALIAS_ACTION_COUNT,
    ensures
        r == alias_form_decision(*old(form), *key),
        final(form).completions@.len() == 0,
        final(form).name.well_formed(),
        final(form).path.well_formed(),
        final(form).custom.well_formed(),
        final(form).action < ALIAS_ACTION_COUNT,
        final(form).editing_id == old(form).editing_id,
        r is Stay ==> {
            &&& final(form).focus == alias_form_focus(*old(form), *key)
            &&& final(form).action == (if switches_action(*old(form), *key) {
                if key.code == KeyCode::Left {
                    previous_of(old(form).action as int, 6)
                } else {
                    next_of(old(form).action as int, 6)
                }
            } else {
                old(form).action as int
            })
            &&& input_view(final(form).name) == (if edits_alias_text(*old(form), *key)
                && old(form).focus == 0 {
                input_after(old(form).name, *key)
            } else {
                input_view(old(form).name)
            })
            &&& input_view(final(form).custom) == (if edits_alias_text(*old(form), *key)
                && old(form).focus == 2 && old(form).action == 5 {
                input_after(old(form).custom, *key)
            } else {
                input_view(old(form).custom)
            })
            &&& input_view(final(form).path) == (if edits_alias_text(*old(form), *key)
                && old(form).focus == 2 && old(form).action != 5 {
                input_after(old(form).path, *key)
            } else {
                input_view(old(form).path)
            })
            &&& (if switches_action(*old(form), *key) || (edits_alias_text(*old(form), *key) && ((
            old(form).focus == 0 && input_uses(old(form).name, *key)) || (old(form).focus == 2
                && old(form).action == 5 && input_uses(old(form).custom, *key)) || (
            old(form).focus == 2 && old(form).action != 5 && input_uses(
                old(form).path,
                *key,
            )))) {
                final(form).error@.len() == 0
            } else {
                final(form).error == old(form).error
            })
        },
        !(r is Stay) ==> final(form).focus == old(form).focus && final(form).action
            == old(form).action && final(form).error == old(form).error && input_view(
            final(form).name,
        ) == input_view(old(form).name) && input_view(final(form).path) == input_view(
            old(form).path,
        ) && input_view(final(form).custom) == input_view(old(form).custom),
{
    form.completions = Vec::new();
    let code = key.code;
    if code == KeyCode::Esc {
        return FormKey::Close;
    }
    if (key.ctrl && code == KeyCode::Char('s')) || (code == KeyCode::Enter && form.focus == 2) {
        return FormKey::Submit;
    }
    if code == KeyCode::Enter || code == KeyCode::Down {
        form.focus = cycle(form.focus, ALIAS_FORM_FIELDS, true);
    } else if code == KeyCode::Up || code == KeyCode::BackTab {
        form.focus = cycle(form.focus, ALIAS_FORM_FIELDS, false);
    } else if code == KeyCode::Tab {
        if form.focus == 2 && form.action != 5 {
            return FormKey::CompletePath;
        }
        form.focus = cycle(form.focus, ALIAS_FORM_FIELDS, true);
    } else if form.focus == 1 && (code == KeyCode::Left || code == KeyCode::Right || code
        == KeyCode::Char(' ')) {
        form.action = cycle(form.action, ALIAS_ACTION_COUNT, code != KeyCode::Left);
        form.error = String::new();
    } else if form.focus == 0 {
        if form.name.handle_key(key) {
            form.error = String::new();
        }
    } else if form.focus == 2 && form.action == 5 {
        if form.custom.handle_key(key) {
            form.error = String::new();
        }
    } else if form.focus == 2 {
        if form.path.handle_key(key) {
            form.error = String::new();
        }
    }
    FormKey::Stay
}


/// The fields before the steps in the automation editor: name, working
/// directory, group.
pub const EDITOR_FIXED_FIELDS: usize = 3;

/// The automation editor: the automation, one input per field, one input
/// per step (its command, or the seconds of a wait).
pub struct EditorForm {
    pub automation: Automation,
    pub name: TextInput,
    pub path: TextInput,
    pub group: TextInput,
    pub step_inputs: Vec<TextInput>,
    /// The focused field; the steps come after the fixed fields.
    pub focus: usize,
    /// Whether the automation is new.
    pub is_new: bool,
    /// The error shown under the editor.
    pub error: String,
    /// The path completions shown under the editor.
    pub completions: Vec<String>,
}

impl EditorForm {
    /// One input per step, the focus on a field, every cursor inside its
    /// text.
    pub open spec fn well_formed(&self) -> bool {
        &&& self.automation.steps@.len() == self.step_inputs@.len()
        &&& self.step_inputs@.len() + EDITOR_FIXED_FIELDS <= usize::MAX
        &&& self.focus < EDITOR_FIXED_FIELDS + self.step_inputs@.len()
        &&& self.name.well_formed()
        &&& self.path.well_formed()
        &&& self.group.well_formed()
        &&& forall|i: int| 0 <= i < self.step_inputs@.len() ==> #[trigger] self.step_inputs@[i].well_formed()
    }

    /// The number of fields.
    pub open spec fn field_count(&self) -> int {
        EDITOR_FIXED_FIELDS + self.step_inputs@.len()
    }

    /// The focused step, if the focus is on one.
    pub open spec fn focused_step(&self) -> Option<int> {
        if self.focus >= EDITOR_FIXED_FIELDS {
            Some(self.focus - EDITOR_FIXED_FIELDS)
        } else {
            None
        }
    }
}

/// What the caller does after a key in the editor.
pub enum EditorKey {
    /// Close the editor.
    Close,
    /// Check and save the automation.
    Save,
    /// Complete the working directory from the directory it names.
    CompletePath,
    /// Add a new step at this position: a wait step (true) or a command.
    AddStep(bool, usize),
    /// Keep the editor open.
    Stay,
}

/// The error shown when a step is added to a full automation.
pub open spec fn too_many_steps_error() -> Seq<char> {
    "An automation can have at most "@ + shell_alias::decimal(MAX_AUTOMATION_STEPS as nat)
        + " steps."@
}

/// Shift or Alt is held.
pub open spec fn shifted(key: Key) -> bool {
    key.shift || key.alt
}

/// Where a new step goes: after the focused step, or at the end.
pub open spec fn insert_position(e: EditorForm) -> int {
    match e.focused_step() {
        Some(i) => i + 1,
        None => e.step_inputs@.len() as int,
    }
}

/// The step that Shift+Up or Shift+Down swaps the focused step with, when
/// there is one.
pub open spec fn swap_target(e: EditorForm, key: Key) -> Option<int> {
    match e.focused_step() {
        Some(i) => if key.code == KeyCode::Up {
            if i > 0 {
                Some(i - 1)
            } else {
                None
            }
        } else if i + 1 < e.step_inputs@.len() {
            Some(i + 1)
        } else {
            None
        },
        None => None,
    }
}

/// The kinds of keys in the editor, in the order the editor tries them.
pub enum EditorCase {
    Close,
    Save,
    Add,
    Full,
    Remove,
    Toggle,
    Swap,
    Move,
    Complete,
    Refused,
    Edit,
}

/// Which kind of key the editor sees.
pub open spec fn editor_case(e: EditorForm, key: Key) -> EditorCase {
    let code = key.code;
    if code == KeyCode::Esc {
        EditorCase::Close
    } else if ctrl_char(key, 's') || (code == KeyCode::Enter && e.focus + 1 == e.field_count()) {
        EditorCase::Save
    } else if ctrl_char(key, 'n') || ctrl_char(key, 'p') {
        if e.step_inputs@.len() >= MAX_AUTOMATION_STEPS {
            EditorCase::Full
        } else {
            EditorCase::Add
        }
    } else if e.focused_step() is Some && (ctrl_char(key, 'x') || ctrl_char(key, 'd')) {
        EditorCase::Remove
    } else if e.focused_step() is Some && ctrl_char(key, 't')
        && e.automation.steps@[e.focused_step()->0].kind@ == "command"@ {
        EditorCase::Toggle
    } else if e.focused_step() is Some && shifted(key) && (code == KeyCode::Up || code
        == KeyCode::Down) {
        EditorCase::Swap
    } else if code == KeyCode::Tab && e.focus == 1 {
        EditorCase::Complete
    } else if code == KeyCode::Down || code == KeyCode::Enter || code == KeyCode::Up || code
        == KeyCode::BackTab || code == KeyCode::Tab {
        EditorCase::Move
    } else if e.focused_step() is Some && e.automation.steps@[e.focused_step()->0].kind@
        == "wait"@ && !key.ctrl && !key.alt && (match code {
        KeyCode::Char(c) => !('0' <= c && c <= '9'),
        _ => false,
    }) {
        EditorCase::Refused
    } else {
        EditorCase::Edit
    }
}

/// The focus after a moving key: Down, Enter and Tab go to the next field,
/// stopping at the last; Up and Shift+Tab to the previous, stopping at the
/// first.
pub open spec fn moved_focus(e: EditorForm, key: Key) -> int {
    if key.code == KeyCode::Up || key.code == KeyCode::BackTab {
        if e.focus > 0 {
            e.focus - 1
        } else {
            0
        }
    } else if e.focus + 1 <= e.field_count() - 1 {
        e.focus + 1
    } else {
        e.field_count() - 1
    }
}

/// The input that the focused field uses.
pub open spec fn focused_input(e: EditorForm) -> TextInput {
    if e.focus == 0 {
        e.name
    } else if e.focus == 1 {
        e.path
    } else if e.focus == 2 {
        e.group
    } else {
        e.step_inputs@[e.focus - EDITOR_FIXED_FIELDS]
    }
}

/// The input that the focused field has after a key.
pub open spec fn focused_input_after(e: EditorForm, f: EditorForm, key: Key) -> bool {
    if e.focus == 0 {
        input_view(f.name) == input_after(e.name, key)
    } else if e.focus == 1 {
        input_view(f.path) == input_after(e.path, key)
    } else if e.focus == 2 {
        input_view(f.group) == input_after(e.group, key)
    } else {
        input_view(f.step_inputs@[e.focus - EDITOR_FIXED_FIELDS]) == input_after(
            e.step_inputs@[e.focus - EDITOR_FIXED_FIELDS],
            key,
        )
    }
}

/// Every input but the focused one is kept; the step inputs keep their
/// number.
pub open spec fn other_inputs_kept(e: EditorForm, f: EditorForm) -> bool {
    &&& f.step_inputs@.len() == e.step_inputs@.len()
    &&& (e.focus != 0 ==> input_view(f.name) == input_view(e.name))
    &&& (e.focus != 1 ==> input_view(f.path) == input_view(e.path))
    &&& (e.focus != 2 ==> input_view(f.group) == input_view(e.group))
    &&& forall|i: int|
        0 <= i < e.step_inputs@.len() && i != e.focus - EDITOR_FIXED_FIELDS ==> input_view(
            #[trigger] f.step_inputs@[i],
        ) == input_view(e.step_inputs@[i])
}

/// The fields of the automation that the editor keeps while keys are
/// pressed.
pub open spec fn same_automation_fields(a: Automation, b: Automation) -> bool {
    &&& a.id == b.id
    &&& a.name == b.name
    &&& a.path == b.path
    &&& a.favorite == b.favorite
    &&& a.group == b.group
    &&& a.hotkey == b.hotkey
    &&& a.created_at == b.created_at
    &&& a.updated_at == b.updated_at
}

/// The views of the step inputs.
pub open spec fn input_views(v: Seq<TextInput>) -> Seq<(Seq<char>, int)> {
    v.map_values(|t: TextInput| input_view(t))
}

/// Two steps agree but for their behavior.
pub open spec fn same_step_but_behavior(a: AutomationStep, b: AutomationStep) -> bool {
    a.id == b.id && a.kind == b.kind && a.command == b.command && a.seconds == b.seconds
}

/// The behavior Control+T gives a command step: background after waiting,
/// waiting after background.
pub open spec fn toggled_behavior(b: Seq<char>) -> Seq<char> {
    if b == "background"@ {
        "wait"@
    } else {
        "background"@
    }
}

/// Swaps the items at `i` and `j`.
pub open spec fn swapped<T>(s: Seq<T>, i: int, j: int) -> Seq<T> {
    s.update(i, s[j]).update(j, s[i])
}

/// What the editor does with a key: Esc closes; Control+S, or Enter on the
/// last field, saves; Control+N and Control+P add a command or wait step
/// after the focused one (at most `MAX_AUTOMATION_STEPS`); on a step,
/// Control+X and Control+D remove it, Control+T switches a command between
/// waiting and background, Shift+Up/Down moves it; Tab on the working
/// directory completes it; the moving keys move the focus; a wait step
/// takes only digits; other keys edit the focused field.
pub open spec fn editor_decision(e: EditorForm, key: Key) -> EditorKey {
    match editor_case(e, key) {
        EditorCase::Close => EditorKey::Close,
        EditorCase::Save => EditorKey::Save,
        EditorCase::Add => EditorKey::AddStep(ctrl_char(key, 'p'), insert_position(e) as usize),
        EditorCase::Complete => EditorKey::CompletePath,
        _ => EditorKey::Stay,
    }
}

/// What a key does to the editor, besides clearing the completions.
pub open spec fn editor_after(e: EditorForm, f: EditorForm, key: Key) -> bool {
    let steps = e.automation.steps@;
    let views = input_views(e.step_inputs@);
    let kept_fixed = input_view(f.name) == input_view(e.name) && input_view(f.path) == input_view(
        e.path,
    ) && input_view(f.group) == input_view(e.group);
    &&& same_automation_fields(f.automation, e.automation)
    &&& f.is_new == e.is_new
    &&& match editor_case(e, key) {
        EditorCase::Full => {
            &&& f.error@ == too_many_steps_error()
            &&& kept_fixed && f.focus == e.focus && f.automation.steps@ == steps && input_views(
                f.step_inputs@,
            ) == views
        },
        EditorCase::Remove => {
            let i = e.focused_step()->0;
            &&& f.automation.steps@ == steps.remove(i)
            &&& input_views(f.step_inputs@) == views.remove(i)
            &&& f.focus == (if e.focus <= e.field_count() - 2 {
                e.focus as int
            } else {
                e.field_count() - 2
            })
            &&& kept_fixed && f.error == e.error
        },
        EditorCase::Toggle => {
            let i = e.focused_step()->0;
            &&& f.automation.steps@.len() == steps.len()
            &&& forall|j: int|
                0 <= j < steps.len() && j != i ==> #[trigger] f.automation.steps@[j] == steps[j]
            &&& same_step_but_behavior(f.automation.steps@[i], steps[i])
            &&& f.automation.steps@[i].behavior@ == toggled_behavior(steps[i].behavior@)
            &&& input_views(f.step_inputs@) == views
            &&& kept_fixed && f.focus == e.focus && f.error == e.error
        },
        EditorCase::Swap => {
            let i = e.focused_step()->0;
            &&& match swap_target(e, key) {
                Some(t) => {
                    &&& f.automation.steps@ == swapped(steps, i, t)
                    &&& input_views(f.step_inputs@) == swapped(views, i, t)
                    &&& f.focus == EDITOR_FIXED_FIELDS + t
                },
                None => f.automation.steps@ == steps && input_views(f.step_inputs@) == views
                    && f.focus == e.focus,
            }
            &&& kept_fixed && f.error == e.error
        },
        EditorCase::Move => {
            &&& f.focus == moved_focus(e, key)
            &&& kept_fixed && f.automation.steps@ == steps && input_views(f.step_inputs@) == views
            &&& f.error == e.error
        },
        EditorCase::Edit => {
            &&& f.focus == e.focus && f.automation.steps@ == steps
            &&& focused_input_after(e, f, key)
            &&& other_inputs_kept(e, f)
            &&& (if input_uses(focused_input(e), key) {
                f.error@.len() == 0
            } else {
                f.error == e.error
            })
        },
        _ => {
            &&& kept_fixed && f.focus == e.focus && f.automation.steps@ == steps && input_views(
                f.step_inputs@,
            ) == views
            &&& f.error == e.error
        },
    }
}

fn too_many_steps_message() -> (r: String)
    ensures
        r@ == too_many_steps_error(),
{
    let mut v: Vec<char> = Vec::new();
    crate::text::push_str(&mut v, "An automation can have at most ");
    shell_alias::push_decimal(&mut v, MAX_AUTOMATION_STEPS as u64);
    crate::text::push_str(&mut v, " steps.");
    crate::text::string_of(&v)
}

fn editor_remove_step(e: &mut EditorForm, key: &Key)
    requires
        old(e).well_formed(),
        editor_case(*old(e), *key) is Remove,
    ensures
        final(e).well_formed(),
        final(e).completions == old(e).completions,
        editor_after(*old(e), *final(e), *key),
{
    let ghost e0 = *e;
    let i = e.focus - EDITOR_FIXED_FIELDS;
    let n = e.step_inputs.len();
    e.automation.steps.remove(i);
    e.step_inputs.remove(i);
    assert(input_views(e.step_inputs@) =~= input_views(e0.step_inputs@).remove(i as int));
    let last = EDITOR_FIXED_FIELDS + n - 2;
    if e.focus > last {
        e.focus = last;
    }
    assert forall|j: int| 0 <= j < e.step_inputs@.len() implies #[trigger] e.step_inputs@[j].well_formed() by {
        if j < i {
            assert(e.step_inputs@[j] == e0.step_inputs@[j]);
        } else {
            assert(e.step_inputs@[j] == e0.step_inputs@[j + 1]);
        }
    }
}

fn editor_toggle_behavior(e: &mut EditorForm, key: &Key)
    requires
        old(e).well_formed(),
        editor_case(*old(e), *key) is Toggle,
    ensures
        final(e).well_formed(),
        final(e).completions == old(e).completions,
        editor_after(*old(e), *final(e), *key),
{
    let ghost e0 = *e;
    let i = e.focus - EDITOR_FIXED_FIELDS;
    let mut steps: Vec<AutomationStep> = Vec::new();
    std::mem::swap(&mut steps, &mut e.automation.steps);
    let mut step = steps.remove(i);
    if str_eq(step.behavior.as_str(), "background") {
        step.behavior = owned("wait");
    } else {
        step.behavior = owned("background");
    }
    steps.insert(i, step);
    e.automation.steps = steps;
    assert forall|j: int| 0 <= j < e0.automation.steps@.len() && j != i implies #[trigger] e.automation.steps@[j] == e0.automation.steps@[j] by {
        if j < i {
        } else {
        }
    }
}

fn swap_adjacent<T>(v: &mut Vec<T>, lo: usize)
    requires
        lo + 1 < old(v).len(),
    ensures
        final(v)@ == swapped(old(v)@, lo as int, lo + 1),
        final(v)@ == swapped(old(v)@, lo + 1, lo as int),
{
    let ghost v0 = v@;
    let x = v.remove(lo + 1);
    v.insert(lo, x);
    assert(v@ =~= swapped(v0, lo as int, lo + 1));
    assert(v@ =~= swapped(v0, lo + 1, lo as int));
}

proof fn lemma_swapped_views(v: Seq<TextInput>, i: int, t: int)
    requires
        0 <= i < v.len(),
        0 <= t < v.len(),
    ensures
        input_views(swapped(v, i, t)) == swapped(input_views(v), i, t),
        forall|j: int| 0 <= j < v.len() ==> #[trigger] swapped(v, i, t)[j] == v[if j == i {
            t
        } else if j == t {
            i
        } else {
            j
        }],
{
    assert(input_views(swapped(v, i, t)) =~= swapped(input_views(v), i, t));
}

fn editor_swap_step(e: &mut EditorForm, key: &Key)
    requires
        old(e).well_formed(),
        editor_case(*old(e), *key) is Swap,
    ensures
        final(e).well_formed(),
        final(e).completions == old(e).completions,
        editor_after(*old(e), *final(e), *key),
{
    let ghost e0 = *e;
    let i = e.focus - EDITOR_FIXED_FIELDS;
    let n = e.step_inputs.len();
    let target: Option<usize> = if key.code == KeyCode::Up {
        if i > 0 {
            Some(i - 1)
        } else {
            None
        }
    } else if i + 1 < n {
        Some(i + 1)
    } else {
        None
    };
    assert(match target {
        Some(t) => swap_target(e0, *key) == Some(t as int),
        None => swap_target(e0, *key) is None,
    });
    if let Some(t) = target {
        let lo = if t < i {
            t
        } else {
            i
        };
        swap_adjacent(&mut e.automation.steps, lo);
        swap_adjacent(&mut e.step_inputs, lo);
        proof {
            lemma_swapped_views(e0.step_inputs@, i as int, t as int);
        }
        e.focus = EDITOR_FIXED_FIELDS + t;
    }
}

fn editor_edit_field(e: &mut EditorForm, key: &Key)
    requires
        old(e).well_formed(),
        editor_case(*old(e), *key) is Edit,
    ensures
        final(e).well_formed(),
        final(e).completions == old(e).completions,
        editor_after(*old(e), *final(e), *key),
{
    let ghost e0 = *e;
    let used = if e.focus == 0 {
        e.name.handle_key(key)
    } else if e.focus == 1 {
        e.path.handle_key(key)
    } else if e.focus == 2 {
        e.group.handle_key(key)
    } else {
        let i = e.focus - EDITOR_FIXED_FIELDS;
        let mut inputs: Vec<TextInput> = Vec::new();
        std::mem::swap(&mut inputs, &mut e.step_inputs);
        let mut input = inputs.remove(i);
        assert(input == e0.step_inputs@[i as int]);
        let used = input.handle_key(key);
        inputs.insert(i, input);
        e.step_inputs = inputs;
        assert forall|j: int| 0 <= j < e.step_inputs@.len() implies #[trigger] e.step_inputs@[j].well_formed() by {
            if j != i {
                assert(e.step_inputs@[j] == e0.step_inputs@[j]);
            }
        }
        assert forall|j: int|
            0 <= j < e0.step_inputs@.len() && j != e0.focus - EDITOR_FIXED_FIELDS implies input_view(
                #[trigger] e.step_inputs@[j],
            ) == input_view(e0.step_inputs@[j]) by {
            assert(e.step_inputs@[j] == e0.step_inputs@[j]);
        }
        used
    };
    if used {
        e.error = String::new();
    }
}

/// Handles a key in the automation editor.
pub fn editor_key(e: &mut EditorForm, key: &Key) -> (r: EditorKey)
    requires
        old(e).well_formed(),
    ensures
        final(e).well_formed(),
        r == editor_decision(*old(e), *key),
        final(e).completions@.len() == 0,
        editor_after(*old(e), *final(e), *key),
{
    e.completions = Vec::new();
    let ghost e0 = *e;
    let code = key.code;
    let n = e.step_inputs.len();
    let field_count = EDITOR_FIXED_FIELDS + n;
    if code == KeyCode::Esc {
        return EditorKey::Close;
    }
    if (key.ctrl && code == KeyCode::Char('s')) || (code == KeyCode::Enter && e.focus + 1
        == field_count) {
        return EditorKey::Save;
    }
    let on_step = e.focus >= EDITOR_FIXED_FIELDS;
    if key.ctrl && (code == KeyCode::Char('n') || code == KeyCode::Char('p')) {
        if n >= MAX_AUTOMATION_STEPS {
            e.error = too_many_steps_message();
            return EditorKey::Stay;
        }
        let at = if on_step {
            e.focus - EDITOR_FIXED_FIELDS + 1
        } else {
            n
        };
        return EditorKey::AddStep(code == KeyCode::Char('p'), at);
    }
    if on_step {
        let i = e.focus - EDITOR_FIXED_FIELDS;
        if key.ctrl && (code == KeyCode::Char('x') || code == KeyCode::Char('d')) {
            editor_remove_step(e, key);
            return EditorKey::Stay;
        }
        if key.ctrl && code == KeyCode::Char('t') && str_eq(
            e.automation.steps[i].kind.as_str(),
            "command",
        ) {
            editor_toggle_behavior(e, key);
            return EditorKey::Stay;
        }
        if (key.shift || key.alt) && (code == KeyCode::Up || code == KeyCode::Down) {
            editor_swap_step(e, key);
            return EditorKey::Stay;
        }
    }
    if code == KeyCode::Tab && e.focus == 1 {
        return EditorKey::CompletePath;
    }
    if code == KeyCode::Down || code == KeyCode::Enter || code == KeyCode::Tab {
        if e.focus + 1 <= field_count - 1 {
            e.focus = e.focus + 1;
        } else {
            e.focus = field_count - 1;
        }
        return EditorKey::Stay;
    }
    if code == KeyCode::Up || code == KeyCode::BackTab {
        if e.focus > 0 {
            e.focus = e.focus - 1;
        }
        return EditorKey::Stay;
    }
    if on_step {
        let i = e.focus - EDITOR_FIXED_FIELDS;
        if str_eq(e.automation.steps[i].kind.as_str(), "wait") && !key.ctrl && !key.alt {
            match code {
                KeyCode::Char(c) => {
                    if !('0' <= c && c <= '9') {
                        return EditorKey::Stay;
                    }
                },
                _ => {},
            }
        }
    }
    editor_edit_field(e, key);
    EditorKey::Stay
}


/// A new step: a wait of ten seconds, or an empty command that the run
/// waits for.
pub open spec fn fresh_step(wait: bool, s: AutomationStep) -> bool {
    &&& s.kind@ == (if wait {
        "wait"@
    } else {
        "command"@
    })
    &&& s.command@.len() == 0
    &&& s.seconds == (if wait {
        10u64
    } else {
        0u64
    })
    &&& s.behavior@ == "wait"@
}

/// A new step with the given id: a wait of ten seconds, or an empty
/// command.
pub fn new_step(wait: bool, id: String) -> (r: AutomationStep)
    ensures
        fresh_step(wait, r),
        r.id == id,
{
    AutomationStep {
        id,
        kind: owned(if wait {
            "wait"
        } else {
            "command"
        }),
        command: String::new(),
        seconds: if wait {
            10
        } else {
            0
        },
        behavior: owned("wait"),
    }
}

/// What the editor shows for a step: the seconds of a wait, the command
/// otherwise.
pub open spec fn step_text(s: AutomationStep) -> Seq<char> {
    if s.kind@ == "wait"@ {
        shell_alias::decimal(s.seconds as nat)
    } else {
        s.command@
    }
}

/// The input of a step, its cursor at the end.
pub fn step_input(step: &AutomationStep) -> (r: TextInput)
    ensures
        r.value@ == step_text(*step),
        r.cursor == step_text(*step).len(),
        r.well_formed(),
{
    if str_eq(step.kind.as_str(), "wait") {
        let text = shell_alias::decimal_string(step.seconds);
        TextInput::new(text.as_str())
    } else {
        TextInput::new(step.command.as_str())
    }
}

/// The editor after a step was added at `at`: the step and its input
/// inserted, the focus on it, the error cleared.
pub open spec fn step_added(e: EditorForm, f: EditorForm, at: int, step: AutomationStep) -> bool {
    &&& f.automation.steps@ == e.automation.steps@.insert(at, step)
    &&& input_views(f.step_inputs@) == input_views(e.step_inputs@).insert(
        at,
        (step_text(step), step_text(step).len() as int),
    )
    &&& f.focus == EDITOR_FIXED_FIELDS + at
    &&& f.error@.len() == 0
    &&& input_view(f.name) == input_view(e.name)
    &&& input_view(f.path) == input_view(e.path)
    &&& input_view(f.group) == input_view(e.group)
    &&& same_automation_fields(f.automation, e.automation)
    &&& f.is_new == e.is_new
}

/// Adds a step at `at`, with its input, and focuses it.
pub fn insert_step(e: &mut EditorForm, at: usize, step: AutomationStep)
    requires
        old(e).well_formed(),
        at <= old(e).step_inputs.len(),
        old(e).step_inputs.len() < MAX_AUTOMATION_STEPS,
    ensures
        final(e).well_formed(),
        step_added(*old(e), *final(e), at as int, step),
{
    let ghost e0 = *e;
    let input = step_input(&step);
    e.automation.steps.insert(at, step);
    e.step_inputs.insert(at, input);
    assert(input_views(e.step_inputs@) =~= input_views(e0.step_inputs@).insert(
        at as int,
        (step_text(step), step_text(step).len() as int),
    ));
    e.focus = EDITOR_FIXED_FIELDS + at;
    e.error = String::new();
    assert forall|j: int| 0 <= j < e.step_inputs@.len() implies #[trigger] e.step_inputs@[j].well_formed() by {
        if j < at {
            assert(e.step_inputs@[j] == e0.step_inputs@[j]);
        } else if j > at {
            assert(e.step_inputs@[j] == e0.step_inputs@[j - 1]);
        }
    }
}

/// Control and a letter.
pub open spec fn ctrl_key(c: char) -> Key {
    Key { code: KeyCode::Char(c), ctrl: true, alt: false, shift: false }
}

/// A step just added is focused, so Control+X right after takes it out
/// again: the steps are as they were before.
pub proof fn lemma_add_then_remove_step(
    e: EditorForm,
    added: EditorForm,
    removed: EditorForm,
    at: int,
    step: AutomationStep,
)
    requires
        e.well_formed(),
        0 <= at <= e.step_inputs@.len(),
        step_added(e, added, at, step),
        added.well_formed(),
        editor_after(added, removed, ctrl_key('x')),
    ensures
        removed.automation.steps@ == e.automation.steps@,
        input_views(removed.step_inputs@) == input_views(e.step_inputs@),
{
    assert(added.focused_step() == Some(at));
    assert(editor_case(added, ctrl_key('x')) is Remove);
    assert(e.automation.steps@.insert(at, step).remove(at) =~= e.automation.steps@);
    let v = input_views(e.step_inputs@);
    assert(v.insert(at, (step_text(step), step_text(step).len() as int)).remove(at) =~= v);
}

/// Moving a step with Shift+Down and then back with Shift+Up leaves the
/// steps and the focus as they were.
pub proof fn lemma_move_step_round_trip(e: EditorForm, down: EditorForm, back: EditorForm)
    requires
        e.well_formed(),
        e.focused_step() is Some,
        e.focused_step()->0 + 1 < e.step_inputs@.len(),
        editor_after(e, down, shift_key(KeyCode::Down)),
        down.well_formed(),
        editor_after(down, back, shift_key(KeyCode::Up)),
    ensures
        back.automation.steps@ == e.automation.steps@,
        input_views(back.step_inputs@) == input_views(e.step_inputs@),
        back.focus == e.focus,
{
    let i = e.focused_step()->0;
    assert(editor_case(e, shift_key(KeyCode::Down)) is Swap);
    assert(swap_target(e, shift_key(KeyCode::Down)) == Some(i + 1));
    assert(down.focused_step() == Some(i + 1));
    assert(editor_case(down, shift_key(KeyCode::Up)) is Swap);
    assert(swap_target(down, shift_key(KeyCode::Up)) == Some(i));
    let s = e.automation.steps@;
    assert(swapped(swapped(s, i, i + 1), i + 1, i) =~= s);
    let v = input_views(e.step_inputs@);
    assert(swapped(swapped(v, i, i + 1), i + 1, i) =~= v);
}

/// An arrow key with Shift held.
pub open spec fn shift_key(code: KeyCode) -> Key {
    Key { code, ctrl: false, alt: false, shift: true }
}

} // verus!
