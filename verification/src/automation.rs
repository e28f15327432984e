//! Automations: named workflows of shell commands and timed pauses that run
//! in one working directory, and the rules every stored workflow follows.

use vstd::prelude::*;
use crate::text;
use crate::text::{chars_of, is_blank_str, trim_chars, string_of};
use crate::message::{concat3, owned, str_eq};

verus! {

/// Most automations EasyAlias stores.
pub const MAX_AUTOMATIONS: usize = 200;

/// Most steps one automation may have.
pub const MAX_AUTOMATION_STEPS: usize = 100;

/// Most bytes one command step may hold.
pub const MAX_AUTOMATION_COMMAND_BYTES: usize = 16384;

/// Longest wait step: 24 hours.
pub const MAX_WAIT_SECONDS: u64 = 86400;

/// One step of an automation: a shell command, or a pause.
#[derive(Clone, Debug)]
pub struct AutomationStep {
    pub id: String,
    pub kind: String,
    pub command: String,
    pub seconds: u64,
    pub behavior: String,
}

/// A named workflow run from one working directory.
#[derive(Clone, Debug)]
pub struct Automation {
    pub id: String,
    pub name: String,
    pub path: String,
    pub steps: Vec<AutomationStep>,
    pub favorite: bool,
    pub group: String,
    pub hotkey: Option<String>,
    pub created_at: String,
    pub updated_at: String,
}

/// The number of UTF-8 bytes of a text, as `str::len` reports it.
pub open spec fn utf8_len(s: Seq<char>) -> usize {
    vstd::utf8::encode_utf8(s).len() as usize
}

/// Why the first `k` steps of automation `name` are invalid, if they are.
pub open spec fn step_error_upto(steps: Seq<AutomationStep>, k: int, name: Seq<char>) -> Option<
    Seq<char>,
>
    decreases k,
{
    if k <= 0 {
        None
    } else {
        match step_error_upto(steps, k - 1, name) {
            Some(m) => Some(m),
            None => {
                let st = steps[k - 1];
                if text::trim(st.id@).len() == 0 || exists|j: int|
                    0 <= j < k - 1 && steps[j].id@ == st.id@ {
                    Some("Automation \""@ + name + "\" contains a duplicate step id."@)
                } else if st.kind@ == "command"@ {
                    if text::trim(st.command@).len() == 0 || utf8_len(st.command@)
                        > MAX_AUTOMATION_COMMAND_BYTES {
                        Some("Every command in \""@ + name + "\" must contain at most 16384 bytes."@)
                    } else if !(st.behavior@ == "wait"@ || st.behavior@ == "background"@) {
                        Some("Automation \""@ + name + "\" has an invalid command mode."@)
                    } else {
                        None
                    }
                } else if st.kind@ == "wait"@ {
                    if st.seconds == 0 || st.seconds > MAX_WAIT_SECONDS {
                        Some(
                            "Wait steps in \""@ + name
                                + "\" must be between 1 second and 24 hours."@,
                        )
                    } else {
                        None
                    }
                } else {
                    Some("Automation \""@ + name + "\" has an unknown step type."@)
                }
            },
        }
    }
}

/// Why automation `a` is invalid, given whether an earlier one has its id.
pub open spec fn automation_error(a: Automation, id_taken: bool) -> Option<Seq<char>> {
    let name = text::trim(a.name@);
    if name.len() == 0 || name.len() > 120 {
        Some("Every automation needs a name with at most 120 characters."@)
    } else if text::trim(a.id@).len() == 0 || id_taken {
        Some("Every automation needs a unique id."@)
    } else if text::trim(a.path@).len() == 0 || a.path@.len() > 4096 {
        Some("Automation \""@ + name + "\" needs a valid working directory."@)
    } else if a.group@.len() > 60 {
        Some("The group label for \""@ + name + "\" must be at most 60 characters."@)
    } else if a.steps@.len() == 0 || a.steps@.len() > MAX_AUTOMATION_STEPS {
        Some("Automation \""@ + name + "\" needs between 1 and 100 steps."@)
    } else {
        step_error_upto(a.steps@, a.steps@.len() as int, name)
    }
}

/// Why the first `k` automations are invalid, if they are.
pub open spec fn automations_error_upto(s: Seq<Automation>, k: int) -> Option<Seq<char>>
    decreases k,
{
    if k <= 0 {
        None
    } else {
        match automations_error_upto(s, k - 1) {
            Some(m) => Some(m),
            None => automation_error(
                s[k - 1],
                exists|j: int| 0 <= j < k - 1 && #[trigger] s[j].id@ == s[k - 1].id@,
            ),
        }
    }
}

/// Why a list of automations cannot be stored, if it cannot.
pub open spec fn automations_error(s: Seq<Automation>) -> Option<Seq<char>> {
    if s.len() > MAX_AUTOMATIONS {
        Some("EasyAlias supports up to 200 automations."@)
    } else {
        automations_error_upto(s, s.len() as int)
    }
}

proof fn lemma_step_error_stable(steps: Seq<AutomationStep>, n: int, m: int, name: Seq<char>)
    requires
        0 <= n <= m,
        step_error_upto(steps, n, name) is Some,
    ensures
        step_error_upto(steps, m, name) == step_error_upto(steps, n, name),
    decreases m - n,
{
    if n < m {
        lemma_step_error_stable(steps, n, m - 1, name);
    }
}

proof fn lemma_automations_error_stable(s: Seq<Automation>, n: int, m: int)
    requires
        0 <= n <= m,
        automations_error_upto(s, n) is Some,
    ensures
        automations_error_upto(s, m) == automations_error_upto(s, n),
    decreases m - n,
{
    if n < m {
        lemma_automations_error_stable(s, n, m - 1);
    }
}

/// Whether step `i` reuses the id of an earlier step.
fn earlier_step_id(steps: &Vec<AutomationStep>, i: usize) -> (r: bool)
    requires
        i < steps@.len(),
    ensures
        r == exists|j: int| 0 <= j < i && steps@[j].id@ == steps@[i as int].id@,
{
    let mut j: usize = 0;
    let mut found = false;
    while j < i
        invariant
            j <= i < steps@.len(),
            found == exists|k: int| 0 <= k < j && steps@[k].id@ == steps@[i as int].id@,
        decreases i - j,
    {
        if steps[j].id == steps[i].id {
            found = true;
        }
        j = j + 1;
    }
    found
}

/// Whether automation `i` reuses the id of an earlier automation.
fn earlier_automation_id(s: &[Automation], i: usize) -> (r: bool)
    requires
        i < s@.len(),
    ensures
        r == exists|j: int| 0 <= j < i && s@[j].id@ == s@[i as int].id@,
{
    let mut j: usize = 0;
    let mut found = false;
    while j < i
        invariant
            j <= i < s@.len(),
            found == exists|k: int| 0 <= k < j && s@[k].id@ == s@[i as int].id@,
        decreases i - j,
    {
        if s[j].id == s[i].id {
            found = true;
        }
        j = j + 1;
    }
    found
}

/// A step that may be stored: a non-blank command of at most 16 KiB that
/// waits or runs in the background, or a wait of 1 second to 24 hours.
pub open spec fn step_valid(st: AutomationStep) -> bool {
    ||| (st.kind@ == "command"@ && text::trim(st.command@).len() > 0 && utf8_len(st.command@)
        <= MAX_AUTOMATION_COMMAND_BYTES && (st.behavior@ == "wait"@ || st.behavior@ == "background"@))
    ||| (st.kind@ == "wait"@ && 1 <= st.seconds <= MAX_WAIT_SECONDS)
}

/// Steps that may be stored: each valid, with a non-blank id no other step
/// has.
pub open spec fn steps_valid(steps: Seq<AutomationStep>) -> bool {
    &&& forall|i: int|
        0 <= i < steps.len() ==> text::trim((#[trigger] steps[i]).id@).len() > 0 && step_valid(
            steps[i],
        )
    &&& forall|i: int, j: int| 0 <= i < j < steps.len() ==> steps[i].id@ != steps[j].id@
}

/// An automation that may be stored, apart from its id being unique: a
/// trimmed name of 1 to 120 characters, a non-blank id, a non-blank working
/// directory of at most 4096 characters, a group of at most 60 characters,
/// and 1 to 100 valid steps.
pub open spec fn automation_valid(a: Automation) -> bool {
    &&& 1 <= text::trim(a.name@).len() <= 120
    &&& text::trim(a.id@).len() > 0
    &&& text::trim(a.path@).len() > 0
    &&& a.path@.len() <= 4096
    &&& a.group@.len() <= 60
    &&& 1 <= a.steps@.len() <= MAX_AUTOMATION_STEPS
    &&& steps_valid(a.steps@)
}

/// A list of automations that may be stored: at most 200, each valid, no
/// two with one id.
pub open spec fn automations_valid(s: Seq<Automation>) -> bool {
    &&& s.len() <= MAX_AUTOMATIONS
    &&& forall|i: int| 0 <= i < s.len() ==> automation_valid(#[trigger] s[i])
    &&& forall|i: int, j: int| 0 <= i < j < s.len() ==> s[i].id@ != s[j].id@
}

proof fn lemma_steps_flat(steps: Seq<AutomationStep>, k: int, name: Seq<char>)
    requires
        0 <= k <= steps.len(),
    ensures
        step_error_upto(steps, k, name) is None <==> steps_valid(steps.take(k)),
    decreases k,
{
    if k > 0 {
        lemma_steps_flat(steps, k - 1, name);
        let t = steps.take(k);
        let p = steps.take(k - 1);
        let st = steps[k - 1];
        assert(t.drop_last() =~= p);
        assert(t.last() == st);
        let fresh = !exists|j: int| 0 <= j < k - 1 && #[trigger] steps[j].id@ == st.id@;
        let last_ok = text::trim(st.id@).len() > 0 && fresh && step_valid(st);
        reveal_strlit("command");
        reveal_strlit("wait");
        assert("command"@ != "wait"@) by {
            assert("command"@[0] != "wait"@[0]);
        }
        assert(step_error_upto(steps, k, name) is None <==> (step_error_upto(steps, k - 1, name) is None
            && last_ok));
        assert(steps_valid(t) <==> (steps_valid(p) && last_ok)) by {
            if steps_valid(t) {
                assert forall|i: int| 0 <= i < p.len() implies text::trim((#[trigger] p[i]).id@).len()
                    > 0 && step_valid(p[i]) by {
                    assert(p[i] == t[i]);
                }
                assert forall|i: int, j: int| 0 <= i < j < p.len() implies p[i].id@ != p[j].id@ by {
                    assert(p[i] == t[i] && p[j] == t[j]);
                }
                assert(text::trim(t[k - 1].id@).len() > 0 && step_valid(t[k - 1]));
                if !fresh {
                    let j = choose|j: int| 0 <= j < k - 1 && #[trigger] steps[j].id@ == st.id@;
                    assert(t[j] == steps[j]);
                    assert(t[j].id@ != t[k - 1].id@);
                }
            }
            if steps_valid(p) && last_ok {
                assert forall|i: int| 0 <= i < t.len() implies text::trim((#[trigger] t[i]).id@).len()
                    > 0 && step_valid(t[i]) by {
                    if i < k - 1 {
                        assert(t[i] == p[i]);
                    }
                }
                assert forall|i: int, j: int| 0 <= i < j < t.len() implies t[i].id@ != t[j].id@ by {
                    if j < k - 1 {
                        assert(p[i] == t[i] && p[j] == t[j]);
                    } else {
                        assert(t[i] == steps[i]);
                        if steps[i].id@ == st.id@ {
                            assert(!fresh);
                        }
                    }
                }
            }
        }
    } else {
        assert(steps.take(0) =~= Seq::<AutomationStep>::empty());
    }
}

proof fn lemma_automations_flat(s: Seq<Automation>, k: int)
    requires
        0 <= k <= s.len(),
    ensures
        automations_error_upto(s, k) is None <==> ((forall|i: int|
            0 <= i < k ==> automation_valid(#[trigger] s[i])) && forall|i: int, j: int|
            0 <= i < j < k ==> s[i].id@ != s[j].id@),
    decreases k,
{
    if k > 0 {
        lemma_automations_flat(s, k - 1);
        let a = s[k - 1];
        let name = text::trim(a.name@);
        lemma_steps_flat(a.steps@, a.steps@.len() as int, name);
        assert(a.steps@.take(a.steps@.len() as int) =~= a.steps@);
        if (forall|i: int| 0 <= i < k ==> automation_valid(#[trigger] s[i])) && forall|i: int, j: int|
            0 <= i < j < k ==> s[i].id@ != s[j].id@ {
            assert(automation_valid(s[k - 1]));
            if exists|j: int| 0 <= j < k - 1 && #[trigger] s[j].id@ == s[k - 1].id@ {
                let j = choose|j: int| 0 <= j < k - 1 && #[trigger] s[j].id@ == s[k - 1].id@;
                assert(s[j].id@ != s[k - 1].id@);
            }
        }
    }
}

/// A list of automations is stored exactly when it satisfies every rule
/// at once (see `automations_valid`).
pub proof fn lemma_automations_rules(s: Seq<Automation>)
    ensures
        automations_error(s) is None <==> automations_valid(s),
{
    if s.len() <= MAX_AUTOMATIONS {
        lemma_automations_flat(s, s.len() as int);
    }
}

/// Checks the steps of one automation whose trimmed name is `name`.
fn validate_steps(steps: &Vec<AutomationStep>, name: &str) -> (r: Result<(), String>)
    ensures
        match r {
            Ok(()) => step_error_upto(steps@, steps@.len() as int, name@) is None,
            Err(e) => step_error_upto(steps@, steps@.len() as int, name@) == Some(e@),
        },
{
    let mut i: usize = 0;
    while i < steps.len()
        invariant
            i <= steps@.len(),
            step_error_upto(steps@, i as int, name@) is None,
        decreases steps@.len() - i,
    {
        let st = &steps[i];
        let err: Option<String> = if is_blank_str(st.id.as_str()) || earlier_step_id(steps, i) {
            Some(concat3("Automation \"", name, "\" contains a duplicate step id."))
        } else if str_eq(st.kind.as_str(), "command") {
            if is_blank_str(st.command.as_str()) || st.command.as_str().len()
                > MAX_AUTOMATION_COMMAND_BYTES {
                Some(concat3("Every command in \"", name, "\" must contain at most 16384 bytes."))
            } else if !(str_eq(st.behavior.as_str(), "wait") || str_eq(
                st.behavior.as_str(),
                "background",
            )) {
                Some(concat3("Automation \"", name, "\" has an invalid command mode."))
            } else {
                None
            }
        } else if str_eq(st.kind.as_str(), "wait") {
            if st.seconds == 0 || st.seconds > MAX_WAIT_SECONDS {
                Some(concat3("Wait steps in \"", name, "\" must be between 1 second and 24 hours."))
            } else {
                None
            }
        } else {
            Some(concat3("Automation \"", name, "\" has an unknown step type."))
        };
        proof {
            assert(steps@[i as int] == *st);
        }
        match err {
            Some(e) => {
                proof {
                    assert(step_error_upto(steps@, i + 1, name@) == Some(e@));
                    lemma_step_error_stable(steps@, i + 1, steps@.len() as int, name@);
                }
                return Err(e);
            },
            None => {
                assert(step_error_upto(steps@, i + 1, name@) is None);
            },
        }
        i = i + 1;
    }
    Ok(())
}

/// Checks every automation: at most 200, each with a name of at most 120
/// characters, a unique id, a working directory, a group label of at most
/// 60 characters, and 1 to 100 valid steps with unique ids. Commands are
/// non-blank, at most 16 KiB, and wait or run in the background; waits last
/// 1 second to 24 hours. The error names the first problem found.
pub fn validate_automations(automations: &[Automation]) -> (r: Result<(), String>)
    ensures
        match r {
            Ok(()) => automations_error(automations@) is None,
            Err(e) => automations_error(automations@) == Some(e@),
        },
        r is Ok <==> automations_valid(automations@),
{
    proof {
        lemma_automations_rules(automations@);
    }
    if automations.len() > MAX_AUTOMATIONS {
        return Err(owned("EasyAlias supports up to 200 automations."));
    }
    let mut i: usize = 0;
    while i < automations.len()
        invariant
            i <= automations@.len(),
            automations@.len() <= MAX_AUTOMATIONS,
            automations_error_upto(automations@, i as int) is None,
            automations_error(automations@) is None <==> automations_valid(automations@),
        decreases automations@.len() - i,
    {
        let a = &automations[i];
        let name_chars = trim_chars(&chars_of(a.name.as_str()));
        let name = string_of(&name_chars);
        let id_taken = earlier_automation_id(automations, i);
        let err: Option<String> = if name_chars.len() == 0 || name_chars.len() > 120 {
            Some(owned("Every automation needs a name with at most 120 characters."))
        } else if is_blank_str(a.id.as_str()) || id_taken {
            Some(owned("Every automation needs a unique id."))
        } else if is_blank_str(a.path.as_str()) || chars_of(a.path.as_str()).len() > 4096 {
            Some(concat3("Automation \"", name.as_str(), "\" needs a valid working directory."))
        } else if chars_of(a.group.as_str()).len() > 60 {
            Some(
                concat3(
                    "The group label for \"",
                    name.as_str(),
                    "\" must be at most 60 characters.",
                ),
            )
        } else if a.steps.len() == 0 || a.steps.len() > MAX_AUTOMATION_STEPS {
            Some(concat3("Automation \"", name.as_str(), "\" needs between 1 and 100 steps."))
        } else {
            match validate_steps(&a.steps, name.as_str()) {
                Ok(()) => None,
                Err(e) => Some(e),
            }
        };
        match err {
            Some(e) => {
                proof {
                    lemma_automations_error_stable(automations@, i + 1, automations@.len() as int);
                }
                return Err(e);
            },
            None => {},
        }
        i = i + 1;
    }
    Ok(())
}

/// Whether automation `k` reuses the name of an earlier one.
pub open spec fn has_earlier_name(s: Seq<Automation>, k: int) -> bool {
    exists|i: int| 0 <= i < k && s[i].name@ == s[k].name@
}

/// Why an automation backup's workflows cannot be exported or restored:
/// the rules of `validate_automations`, then the first name used twice.
pub open spec fn automation_backup_error(s: Seq<Automation>) -> Option<Seq<char>> {
    match automations_error(s) {
        Some(m) => Some(m),
        None => if exists|k: int| 0 <= k < s.len() && #[trigger] has_earlier_name(s, k) {
            let j = choose|j: int|
                0 <= j < s.len() && #[trigger] has_earlier_name(s, j) && forall|k: int|
                    0 <= k < j ==> !#[trigger] has_earlier_name(s, k);
            Some("Duplicate automation name in backup: "@ + s[j].name@ + ""@)
        } else {
            None
        },
    }
}

/// Whether automation `i` reuses the name of an earlier one.
fn earlier_automation_name(s: &[Automation], i: usize) -> (r: bool)
    requires
        i < s@.len(),
    ensures
        r == has_earlier_name(s@, i as int),
{
    let mut j: usize = 0;
    let mut found = false;
    while j < i
        invariant
            j <= i < s@.len(),
            found == exists|k: int| 0 <= k < j && s@[k].name@ == s@[i as int].name@,
        decreases i - j,
    {
        if s[j].name == s[i].name {
            found = true;
        }
        j = j + 1;
    }
    found
}

/// Checks the workflows of an automation backup: everything
/// `validate_automations` checks, and that no name occurs twice.
pub fn validate_automation_backup_collection(automations: &[Automation]) -> (r: Result<(), String>)
    ensures
        match r {
            Ok(()) => automation_backup_error(automations@) is None,
            Err(e) => automation_backup_error(automations@) == Some(e@),
        },
{
    match validate_automations(automations) {
        Err(e) => {
            return Err(e);
        },
        Ok(()) => {},
    }
    let ghost s = automations@;
    let mut i: usize = 0;
    while i < automations.len()
        invariant
            i <= s.len(),
            s == automations@,
            automations_error(s) is None,
            forall|k: int| 0 <= k < i ==> !#[trigger] has_earlier_name(s, k),
        decreases s.len() - i,
    {
        if earlier_automation_name(automations, i) {
            proof {
                assert(has_earlier_name(s, i as int));
                let j = choose|j: int|
                    0 <= j < s.len() && #[trigger] has_earlier_name(s, j) && forall|k: int|
                        0 <= k < j ==> !#[trigger] has_earlier_name(s, k);
                if j < i {
                    assert(!has_earlier_name(s, j));
                } else if j > i {
                    assert(!has_earlier_name(s, i as int));
                }
                assert(j == i);
            }
            return Err(
                concat3("Duplicate automation name in backup: ", automations[i].name.as_str(), ""),
            );
        }
        i = i + 1;
    }
    Ok(())
}

/// What a command step does by default: wait for the command to finish.
pub fn default_command_behavior() -> (r: String)
    ensures
        r@ == "wait"@,
{
    owned("wait")
}

} // verus!
