//! Saving what the automation editor holds: the automation built from its
//! fields, the checks the desktop editor makes (with its messages), and
//! the list with the automation added or replaced. Also the group and
//! favorite changes made from the list.

use vstd::prelude::*;
use crate::text;
use crate::shell_alias;
use crate::timed;
use crate::tui_forms;
use crate::text::{chars_of, push_str, string_of, to_lowercase, trim_chars};
use crate::message::{concat3, owned, str_eq};
use crate::automation::{Automation, AutomationStep, MAX_WAIT_SECONDS};
use crate::alias_entry::AliasEntry;
use crate::tui_forms::EditorForm;

verus! {

/// `str::parse::<u64>`: an optional `+`, then one or more ASCII digits, and
/// a value that fits.
pub open spec fn parse_u64(s: Seq<char>) -> Option<u64> {
    let d = if s.len() > 0 && s[0] == '+' {
        s.drop_first()
    } else {
        s
    };
    if d.len() == 0 || !timed::all_digits(d) || timed::digits_value(d) > u64::MAX {
        None
    } else {
        Some(timed::digits_value(d) as u64)
    }
}

proof fn lemma_digits_value_grows(d: Seq<char>, k: int)
    requires
        0 <= k <= d.len(),
        timed::all_digits(d),
    ensures
        timed::digits_value(d.take(k)) <= timed::digits_value(d),
    decreases d.len() - k,
{
    if k < d.len() {
        lemma_digits_value_grows(d, k + 1);
        assert(d.take(k + 1).drop_last() =~= d.take(k));
        assert(d.take(k + 1).last() == d[k]);
    } else {
        assert(d.take(k) =~= d);
    }
}

/// `str::parse::<u64>` on characters.
pub fn parse_u64_chars(s: &Vec<char>) -> (r: Option<u64>)
    ensures
        r == parse_u64(s@),
{
    let start: usize = if s.len() > 0 && s[0] == '+' {
        1
    } else {
        0
    };
    let ghost d = if s@.len() > 0 && s@[0] == '+' {
        s@.drop_first()
    } else {
        s@
    };
    assert(d =~= s@.skip(start as int));
    if start == s.len() {
        return None;
    }
    let mut value: u128 = 0;
    let mut i: usize = start;
    while i < s.len()
        invariant
            start <= i <= s.len(),
            d =~= s@.skip(start as int),
            d == (if s@.len() > 0 && s@[0] == '+' {
                s@.drop_first()
            } else {
                s@
            }),
            forall|k: int| 0 <= k < i - start ==> '0' <= #[trigger] d[k] && d[k] <= '9',
            value as nat == timed::digits_value(d.take(i - start)),
            value <= u64::MAX,
        decreases s.len() - i,
    {
        let c = s[i];
        assert(d[i - start] == s@[i as int]);
        if c < '0' || c > '9' {
            assert(!timed::all_digits(d)) by {
                assert(d[i - start] == c);
            }
            return None;
        }
        assert(d.take(i - start + 1).drop_last() =~= d.take(i - start));
        assert(d.take(i - start + 1).last() == c);
        let next = value * 10 + ((c as u32) - 48) as u128;
        assert(next as nat == timed::digits_value(d.take(i - start + 1)));
        if next > 18446744073709551615 {
            proof {
                if timed::all_digits(d) {
                    lemma_digits_value_grows(d, i - start + 1);
                }
            }
            return None;
        }
        value = next;
        i = i + 1;
    }
    assert(d.take(i - start) =~= d);
    Some(value as u64)
}

/// The seconds a wait field holds: its trimmed number, 0 when it holds
/// none.
pub open spec fn wait_seconds(input: Seq<char>) -> u64 {
    match parse_u64(text::trim(input)) {
        Some(n) => n,
        None => 0,
    }
}

/// A step as saved from its field: a wait keeps only its seconds, a
/// command only its trimmed text.
pub open spec fn step_edited(old: AutomationStep, input: Seq<char>, new: AutomationStep) -> bool {
    &&& new.id == old.id
    &&& new.kind == old.kind
    &&& new.behavior == old.behavior
    &&& if old.kind@ == "wait"@ {
        new.seconds == wait_seconds(input) && new.command@.len() == 0
    } else {
        new.command@ == text::trim(input) && new.seconds == 0
    }
}

/// What is wrong with a saved step, numbered from 1.
pub open spec fn step_problem(s: AutomationStep, index: int) -> Option<Seq<char>> {
    if s.kind@ == "command"@ && s.command@.len() == 0 {
        Some("Step "@ + shell_alias::decimal((index + 1) as nat) + " needs a command."@)
    } else if s.kind@ == "wait"@ && (s.seconds < 1 || s.seconds > MAX_WAIT_SECONDS) {
        Some(
            "Step "@ + shell_alias::decimal((index + 1) as nat)
                + " must wait between 1 second and 24 hours."@,
        )
    } else {
        None
    }
}

/// The problem of the first faulty step among the first `n`.
pub open spec fn first_step_problem(steps: Seq<AutomationStep>, n: int) -> Option<Seq<char>>
    decreases n,
{
    if n <= 0 {
        None
    } else {
        match first_step_problem(steps, n - 1) {
            Some(m) => Some(m),
            None => step_problem(steps[n - 1], n - 1),
        }
    }
}

/// The automation as the editor would save it, stamped `timestamp`.
pub open spec fn edited(e: EditorForm, a: Automation, timestamp: Seq<char>) -> bool {
    &&& a.id == e.automation.id
    &&& a.name@ == text::trim(e.name.value@)
    &&& a.path@ == text::trim(e.path.value@)
    &&& a.group@ == text::trim(e.group.value@)
    &&& a.favorite == e.automation.favorite
    &&& a.hotkey == e.automation.hotkey
    &&& a.created_at == e.automation.created_at
    &&& a.updated_at@ == timestamp
    &&& a.steps@.len() == e.automation.steps@.len()
    &&& forall|i: int|
        0 <= i < a.steps@.len() ==> step_edited(
            e.automation.steps@[i],
            e.step_inputs@[i].value@,
            #[trigger] a.steps@[i],
        )
}

/// Whether another automation (not the same id) has the name, ignoring
/// case and surrounding spaces.
pub open spec fn name_taken(autos: Seq<Automation>, id: Seq<char>, name: Seq<char>) -> bool {
    exists|j: int|
        0 <= j < autos.len() && (#[trigger] autos[j]).id@ != id && text::lowercase(
            text::trim(autos[j].name@),
        ) == text::lowercase(name)
}

/// Why an automation built from the editor cannot be saved, with the
/// desktop editor's messages.
pub open spec fn save_error(a: Automation, autos: Seq<Automation>) -> Option<Seq<char>> {
    if a.name@.len() == 0 {
        Some("Enter a name for the automation."@)
    } else if a.path@.len() == 0 {
        Some("Choose a working directory."@)
    } else if a.group@.len() > 60 {
        Some("The group label must be at most 60 characters."@)
    } else if a.steps@.len() == 0 {
        Some("Add at least one step."@)
    } else if first_step_problem(a.steps@, a.steps@.len() as int) is Some {
        first_step_problem(a.steps@, a.steps@.len() as int)
    } else if name_taken(autos, a.id@, a.name@) {
        Some("Automation \""@ + a.name@ + "\" already exists."@)
    } else {
        None
    }
}

/// Where an id first occurs in the list; -1 where it does not.
pub open spec fn position_of(autos: Seq<Automation>, id: Seq<char>) -> int {
    tui_forms::first_index(autos.map_values(|a: Automation| a.id@), id)
}

/// The list with `a` in place of the first automation of its id, or added
/// at the end.
pub open spec fn upserted(before: Seq<Automation>, after: Seq<Automation>, a: Automation) -> bool {
    let p = position_of(before, a.id@);
    if p >= 0 {
        after == before.update(p, a)
    } else {
        after == before.push(a)
    }
}

fn edit_step(old: &AutomationStep, input: &str) -> (r: AutomationStep)
    ensures
        step_edited(*old, input@, r),
{
    let t = trim_chars(&chars_of(input));
    if str_eq(old.kind.as_str(), "wait") {
        let seconds = match parse_u64_chars(&t) {
            Some(n) => n,
            None => 0,
        };
        AutomationStep {
            id: old.id.clone(),
            kind: old.kind.clone(),
            command: String::new(),
            seconds,
            behavior: old.behavior.clone(),
        }
    } else {
        AutomationStep {
            id: old.id.clone(),
            kind: old.kind.clone(),
            command: string_of(&t),
            seconds: 0,
            behavior: old.behavior.clone(),
        }
    }
}

fn clone_hotkey(h: &Option<String>) -> (r: Option<String>)
    ensures
        r == *h,
{
    match h {
        Some(s) => Some(s.clone()),
        None => None,
    }
}

/// The automation that the editor's fields describe, stamped `timestamp`.
pub fn edited_automation(e: &EditorForm, timestamp: &str) -> (r: Automation)
    requires
        e.well_formed(),
    ensures
        edited(*e, r, timestamp@),
{
    let mut steps: Vec<AutomationStep> = Vec::new();
    let mut i: usize = 0;
    while i < e.automation.steps.len()
        invariant
            e.well_formed(),
            i <= e.automation.steps@.len(),
            steps@.len() == i,
            forall|k: int|
                0 <= k < i ==> step_edited(
                    e.automation.steps@[k],
                    e.step_inputs@[k].value@,
                    #[trigger] steps@[k],
                ),
        decreases e.automation.steps@.len() - i,
    {
        let s = edit_step(&e.automation.steps[i], e.step_inputs[i].value.as_str());
        steps.push(s);
        i = i + 1;
    }
    Automation {
        id: e.automation.id.clone(),
        name: string_of(&trim_chars(&chars_of(e.name.value.as_str()))),
        path: string_of(&trim_chars(&chars_of(e.path.value.as_str()))),
        steps,
        favorite: e.automation.favorite,
        group: string_of(&trim_chars(&chars_of(e.group.value.as_str()))),
        hotkey: clone_hotkey(&e.automation.hotkey),
        created_at: e.automation.created_at.clone(),
        updated_at: owned(timestamp),
    }
}

fn step_message(index: usize, rest: &str) -> (r: String)
    requires
        index < usize::MAX,
    ensures
        r@ == "Step "@ + shell_alias::decimal((index + 1) as nat) + rest@,
{
    let mut v: Vec<char> = Vec::new();
    push_str(&mut v, "Step ");
    shell_alias::push_decimal(&mut v, (index + 1) as u64);
    push_str(&mut v, rest);
    string_of(&v)
}

fn check_steps(steps: &Vec<AutomationStep>) -> (r: Option<String>)
    ensures
        match first_step_problem(steps@, steps@.len() as int) {
            Some(m) => r matches Some(s) && s@ == m,
            None => r is None,
        },
{
    let mut i: usize = 0;
    while i < steps.len()
        invariant
            i <= steps@.len(),
            first_step_problem(steps@, i as int) is None,
        decreases steps@.len() - i,
    {
        let s = &steps[i];
        if str_eq(s.kind.as_str(), "command") && chars_of(s.command.as_str()).len() == 0 {
            proof {
                lemma_first_problem_later(steps@, i as int + 1, steps@.len() as int);
            }
            return Some(step_message(i, " needs a command."));
        }
        if str_eq(s.kind.as_str(), "wait") && (s.seconds < 1 || s.seconds > MAX_WAIT_SECONDS) {
            proof {
                lemma_first_problem_later(steps@, i as int + 1, steps@.len() as int);
            }
            return Some(step_message(i, " must wait between 1 second and 24 hours."));
        }
        i = i + 1;
    }
    None
}

proof fn lemma_first_problem_later(steps: Seq<AutomationStep>, k: int, n: int)
    requires
        0 <= k <= n,
        first_step_problem(steps, k) is Some,
    ensures
        first_step_problem(steps, n) == first_step_problem(steps, k),
    decreases n - k,
{
    if n > k {
        lemma_first_problem_later(steps, k, n - 1);
    }
}

fn lower_trimmed(s: &str) -> (r: Vec<char>)
    ensures
        r@ == text::lowercase(text::trim(s@)),
{
    let t = string_of(&trim_chars(&chars_of(s)));
    chars_of(to_lowercase(t.as_str()).as_str())
}

/// Checks an automation against the list, and gives the list with it in
/// place of the first automation of its id (or added), or the message of
/// the first problem.
pub fn save_automation(a: Automation, automations: Vec<Automation>) -> (r: Result<
    Vec<Automation>,
    String,
>)
    ensures
        match r {
            Ok(next) => save_error(a, automations@) is None && upserted(automations@, next@, a),
            Err(m) => save_error(a, automations@) == Some(m@),
        },
{
    if chars_of(a.name.as_str()).len() == 0 {
        return Err(owned("Enter a name for the automation."));
    }
    if chars_of(a.path.as_str()).len() == 0 {
        return Err(owned("Choose a working directory."));
    }
    if chars_of(a.group.as_str()).len() > 60 {
        return Err(owned("The group label must be at most 60 characters."));
    }
    if a.steps.len() == 0 {
        return Err(owned("Add at least one step."));
    }
    match check_steps(&a.steps) {
        Some(m) => {
            return Err(m);
        },
        None => {},
    }
    let name = chars_of(to_lowercase(a.name.as_str()).as_str());
    let mut j: usize = 0;
    while j < automations.len()
        invariant
            j <= automations@.len(),
            name@ == text::lowercase(a.name@),
            a.name@.len() > 0 && a.path@.len() > 0 && a.group@.len() <= 60 && a.steps@.len() > 0,
            first_step_problem(a.steps@, a.steps@.len() as int) is None,
            forall|k: int|
                0 <= k < j ==> !((#[trigger] automations@[k]).id@ != a.id@ && text::lowercase(
                    text::trim(automations@[k].name@),
                ) == name@),
        decreases automations@.len() - j,
    {
        let other = lower_trimmed(automations[j].name.as_str());
        if !str_eq(automations[j].id.as_str(), a.id.as_str()) && crate::text::eq_chars(&other, &name) {
            assert(name_taken(automations@, a.id@, a.name@)) by {
                assert(automations@[j as int].id@ != a.id@);
            }
            return Err(concat3("Automation \"", a.name.as_str(), "\" already exists."));
        }
        j = j + 1;
    }
    let ghost ids = automations@.map_values(|x: Automation| x.id@);
    let mut p: usize = 0;
    let mut found = false;
    while p < automations.len() && !found
        invariant
            p <= automations@.len(),
            ids == automations@.map_values(|x: Automation| x.id@),
            forall|k: int| 0 <= k < p ==> ids[k] != a.id@,
            found ==> p < automations@.len() && ids[p as int] == a.id@,
        decreases automations@.len() - p, (if found { 0int } else { 1int }),
    {
        if str_eq(automations[p].id.as_str(), a.id.as_str()) {
            found = true;
        } else {
            p = p + 1;
        }
    }
    let ghost a0 = a;
    let mut next = automations;
    proof {
        tui_forms::lemma_first_index(ids, a.id@, p as int);
    }
    if p < next.len() {
        assert(ids[p as int] == a.id@);
        next.set(p, a);
    } else {
        next.push(a);
    }
    Ok(next)
}

/// Saves what the editor holds: the automation its fields describe,
/// stamped `timestamp`, checked against the list and put in place of the
/// automation of its id (or added); or the message of the first problem.
pub fn save_editor(e: &EditorForm, automations: Vec<Automation>, timestamp: &str) -> (r: Result<
    Vec<Automation>,
    String,
>)
    requires
        e.well_formed(),
    ensures
        exists|a: Automation|
            #[trigger] edited(*e, a, timestamp@) && match r {
                Ok(next) => save_error(a, automations@) is None && upserted(automations@, next@, a),
                Err(m) => save_error(a, automations@) == Some(m@),
            },
{
    let a = edited_automation(e, timestamp);
    let ghost a0 = a;
    let r = save_automation(a, automations);
    assert(edited(*e, a0, timestamp@));
    r
}


/// The automation with a new group (or favorite flag) and time stamp; the
/// rest kept.
pub open spec fn regrouped(before: Automation, after: Automation, group: Seq<char>, timestamp: Seq<char>) -> bool {
    &&& after.id == before.id && after.name == before.name && after.path == before.path
    &&& after.steps == before.steps && after.favorite == before.favorite
    &&& after.hotkey == before.hotkey && after.created_at == before.created_at
    &&& after.group@ == group && after.updated_at@ == timestamp
}

/// Puts every automation of an id into a group (trimmed; empty takes it
/// out of its group), stamped `timestamp`; a label over 60 characters is
/// refused.
pub fn assign_group(automations: Vec<Automation>, id: &str, group: &str, timestamp: &str) -> (r: Result<
    Vec<Automation>,
    String,
>)
    ensures
        text::trim(group@).len() > 60 ==> (r matches Err(m) && m@
            == "The group label must be at most 60 characters."@),
        text::trim(group@).len() <= 60 ==> (r matches Ok(next) && next@.len() == automations@.len()
            && forall|i: int|
            0 <= i < next@.len() ==> if automations@[i].id@ == id@ {
                regrouped(automations@[i], #[trigger] next@[i], text::trim(group@), timestamp@)
            } else {
                next@[i] == automations@[i]
            }),
{
    let g = trim_chars(&chars_of(group));
    if g.len() > 60 {
        return Err(owned("The group label must be at most 60 characters."));
    }
    let ghost before = automations@;
    let mut rest = automations;
    let mut next: Vec<Automation> = Vec::new();
    let n = rest.len();
    let mut i: usize = 0;
    while i < n
        invariant
            n == before.len(),
            i <= n,
            rest@ == before.subrange(i as int, n as int),
            next@.len() == i,
            g@ == text::trim(group@),
            forall|k: int|
                0 <= k < i ==> if before[k].id@ == id@ {
                    regrouped(before[k], #[trigger] next@[k], g@, timestamp@)
                } else {
                    next@[k] == before[k]
                },
        decreases n - i,
    {
        let mut a = rest.remove(0);
        assert(a == before[i as int]);
        if str_eq(a.id.as_str(), id) {
            a.group = string_of(&g);
            a.updated_at = owned(timestamp);
        }
        next.push(a);
        assert(rest@ =~= before.subrange(i + 1, n as int));
        i = i + 1;
    }
    Ok(next)
}

/// The message after a group change.
pub fn group_notice(name: &str, group: &str) -> (r: String)
    ensures
        r@ == (if group@.len() == 0 {
            "Removed \""@ + name@ + "\" from its group."@
        } else {
            "Moved \""@ + name@ + "\" to \""@ + group@ + "\"."@
        }),
{
    if chars_of(group).len() == 0 {
        concat3("Removed \"", name, "\" from its group.")
    } else {
        crate::message::concat5("Moved \"", name, "\" to \"", group, "\".")
    }
}

/// Pins or unpins every automation of an id, stamped `timestamp`.
pub fn toggle_automation_favorite(automations: Vec<Automation>, id: &str, timestamp: &str) -> (r: Vec<
    Automation,
>)
    ensures
        r@.len() == automations@.len(),
        forall|i: int|
            0 <= i < r@.len() ==> if automations@[i].id@ == id@ {
                &&& (#[trigger] r@[i]).favorite == !automations@[i].favorite
                &&& r@[i].updated_at@ == timestamp@
                &&& r@[i].id == automations@[i].id && r@[i].name == automations@[i].name
                &&& r@[i].path == automations@[i].path && r@[i].steps == automations@[i].steps
                &&& r@[i].group == automations@[i].group && r@[i].hotkey == automations@[i].hotkey
                &&& r@[i].created_at == automations@[i].created_at
            } else {
                r@[i] == automations@[i]
            },
{
    let ghost before = automations@;
    let mut rest = automations;
    let mut next: Vec<Automation> = Vec::new();
    let n = rest.len();
    let mut i: usize = 0;
    while i < n
        invariant
            n == before.len(),
            i <= n,
            rest@ == before.subrange(i as int, n as int),
            next@.len() == i,
            forall|k: int|
                0 <= k < i ==> if before[k].id@ == id@ {
                    &&& (#[trigger] next@[k]).favorite == !before[k].favorite
                    &&& next@[k].updated_at@ == timestamp@
                    &&& next@[k].id == before[k].id && next@[k].name == before[k].name
                    &&& next@[k].path == before[k].path && next@[k].steps == before[k].steps
                    &&& next@[k].group == before[k].group && next@[k].hotkey == before[k].hotkey
                    &&& next@[k].created_at == before[k].created_at
                } else {
                    next@[k] == before[k]
                },
        decreases n - i,
    {
        let mut a = rest.remove(0);
        assert(a == before[i as int]);
        if str_eq(a.id.as_str(), id) {
            a.favorite = !a.favorite;
            a.updated_at = owned(timestamp);
        }
        next.push(a);
        assert(rest@ =~= before.subrange(i + 1, n as int));
        i = i + 1;
    }
    next
}

/// Pins or unpins the first alias of an id, stamped `timestamp`; the list
/// is unchanged when no alias has the id.
pub fn toggle_alias_favorite(aliases: &mut Vec<AliasEntry>, id: &str, timestamp: &str)
    ensures
        final(aliases)@.len() == old(aliases)@.len(),
        ({
            let p = tui_forms::first_index(old(aliases)@.map_values(|a: AliasEntry| a.id@), id@);
            forall|i: int|
                0 <= i < old(aliases)@.len() ==> if i == p {
                    &&& (#[trigger] final(aliases)@[i]).favorite == !old(aliases)@[i].favorite
                    &&& final(aliases)@[i].updated_at@ == timestamp@
                    &&& final(aliases)@[i].id == old(aliases)@[i].id
                    &&& final(aliases)@[i].name == old(aliases)@[i].name
                    &&& final(aliases)@[i].path == old(aliases)@[i].path
                    &&& final(aliases)@[i].action == old(aliases)@[i].action
                    &&& final(aliases)@[i].custom_command == old(aliases)@[i].custom_command
                    &&& final(aliases)@[i].command_preview == old(aliases)@[i].command_preview
                    &&& final(aliases)@[i].created_at == old(aliases)@[i].created_at
                } else {
                    final(aliases)@[i] == old(aliases)@[i]
                }
        }),
{
    let ghost ids = aliases@.map_values(|a: AliasEntry| a.id@);
    let mut i: usize = 0;
    while i < aliases.len()
        invariant
            i <= aliases@.len(),
            aliases@ == old(aliases)@,
            ids == old(aliases)@.map_values(|a: AliasEntry| a.id@),
            forall|k: int| 0 <= k < i ==> ids[k] != id@,
        decreases aliases@.len() - i,
    {
        if str_eq(aliases[i].id.as_str(), id) {
            proof {
                tui_forms::lemma_first_index(ids, id@, i as int);
            }
            let mut a = aliases.remove(i);
            a.favorite = !a.favorite;
            a.updated_at = owned(timestamp);
            aliases.insert(i, a);
            return;
        }
        i = i + 1;
    }
    proof {
        tui_forms::lemma_first_index(ids, id@, i as int);
    }
}

} // verus!
