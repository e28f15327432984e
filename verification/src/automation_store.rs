//! Moving automations between the active list, the Trash and backups.
//!
//! Each operation takes the lists as they were read and gives back the lists
//! to write; reading and writing the files is left to the caller.

use vstd::prelude::*;
use crate::text;
use crate::order;
use crate::trash;
use crate::shell_alias;
use crate::text::{chars_of, eq_chars, is_blank_str, lower_ascii_chars, push_str, string_of, to_lowercase, trim_chars};
use crate::message::{concat3, owned, str_eq};
use crate::automation::{Automation, AutomationStep};
use crate::trash::{Deleted, sort_newest_first};
use crate::order::{Ordered, sort_in_order, text_less};
use crate::shell_alias::push_decimal;

verus! {

/// A deleted automation and the Unix time it was deleted at.
#[derive(Clone, Debug)]
pub struct AutomationTrashEntry {
    pub automation: Automation,
    pub deleted_at: u64,
}

impl Deleted for AutomationTrashEntry {
    open spec fn deleted_time(&self) -> u64 {
        self.deleted_at
    }

    fn deleted_at_secs(&self) -> (r: u64) {
        self.deleted_at
    }
}

/// The active automations and the Trash after a change to both.
pub struct AutomationTrashMutationResult {
    pub automations: Vec<Automation>,
    pub trash: Vec<AutomationTrashEntry>,
}

/// The active automations after a backup import, with how many were added
/// and how many existing ones they replaced.
pub struct AutomationBackupImportResult {
    pub automations: Vec<Automation>,
    pub imported_count: usize,
    pub replaced_count: usize,
}

/// Automations are listed favorites first, then by lowercase name.
impl Ordered for Automation {
    open spec fn goes_before(&self, other: &Self) -> bool {
        (self.favorite && !other.favorite) || (self.favorite == other.favorite
            && order::text_before(text::lowercase(self.name@), text::lowercase(other.name@)))
    }

    fn before(&self, other: &Self) -> (r: bool) {
        if self.favorite != other.favorite {
            return self.favorite;
        }
        let a = to_lowercase(self.name.as_str());
        let b = to_lowercase(other.name.as_str());
        let a = chars_of(a.as_str());
        let b = chars_of(b.as_str());
        text_less(&a, &b)
    }

    proof fn lemma_asymmetric(a: Self, b: Self) {
        if a.favorite == b.favorite {
            order::lemma_text_before_asymmetric(text::lowercase(a.name@), text::lowercase(b.name@));
        }
    }

    proof fn lemma_negatively_transitive(a: Self, b: Self, c: Self) {
        if a.favorite == c.favorite && b.favorite == a.favorite {
            order::lemma_text_before_negatively_transitive(
                text::lowercase(a.name@),
                text::lowercase(b.name@),
                text::lowercase(c.name@),
            );
        }
    }
}

/// Whether `k` is the first position of an automation with the given id.
pub open spec fn first_with_id(s: Seq<Automation>, id: Seq<char>, k: int) -> bool {
    0 <= k < s.len() && s[k].id@ == id && forall|j: int| 0 <= j < k ==> s[j].id@ != id
}

/// The first position of an automation with the given id.
pub open spec fn position_of_id(s: Seq<Automation>, id: Seq<char>) -> Option<int> {
    if exists|k: int| first_with_id(s, id, k) {
        Some(choose|k: int| first_with_id(s, id, k))
    } else {
        None
    }
}

/// Whether `k` is the first position of a Trash entry with the given id.
pub open spec fn first_trashed_with_id(s: Seq<AutomationTrashEntry>, id: Seq<char>, k: int) -> bool {
    0 <= k < s.len() && s[k].automation.id@ == id && forall|j: int|
        0 <= j < k ==> s[j].automation.id@ != id
}

/// The first position of a Trash entry with the given id.
pub open spec fn position_of_trashed_id(s: Seq<AutomationTrashEntry>, id: Seq<char>) -> Option<int> {
    if exists|k: int| first_trashed_with_id(s, id, k) {
        Some(choose|k: int| first_trashed_with_id(s, id, k))
    } else {
        None
    }
}

proof fn lemma_first_unique(s: Seq<Automation>, id: Seq<char>, k: int)
    requires
        first_with_id(s, id, k),
    ensures
        position_of_id(s, id) == Some(k),
{
    let c = choose|k: int| first_with_id(s, id, k);
    assert(first_with_id(s, id, c));
    if c < k {
        assert(s[c].id@ != id);
    }
    if k < c {
        assert(s[k].id@ != id);
    }
}

proof fn lemma_first_trashed_unique(s: Seq<AutomationTrashEntry>, id: Seq<char>, k: int)
    requires
        first_trashed_with_id(s, id, k),
    ensures
        position_of_trashed_id(s, id) == Some(k),
{
    let c = choose|k: int| first_trashed_with_id(s, id, k);
    assert(first_trashed_with_id(s, id, c));
    if c < k {
        assert(s[c].automation.id@ != id);
    }
    if k < c {
        assert(s[k].automation.id@ != id);
    }
}

/// The Trash without the entries of the given id, in their order.
pub open spec fn without_trashed_id(s: Seq<AutomationTrashEntry>, id: Seq<char>) -> Seq<
    AutomationTrashEntry,
>
    decreases s.len(),
{
    if s.len() == 0 {
        Seq::empty()
    } else {
        let prev = without_trashed_id(s.drop_last(), id);
        if s.last().automation.id@ != id {
            prev.push(s.last())
        } else {
            prev
        }
    }
}

/// The lists after moving the automation with the given id to the Trash
/// at `now`; `None` when no automation has the id.
pub open spec fn after_move(
    automations: Seq<Automation>,
    trash: Seq<AutomationTrashEntry>,
    id: Seq<char>,
    now: u64,
) -> Option<(Seq<Automation>, Seq<AutomationTrashEntry>)> {
    match position_of_id(automations, id) {
        None => None,
        Some(k) => Some(
            (
                automations.remove(k),
                trash::newest_first(
                    without_trashed_id(trash, id).push(
                        AutomationTrashEntry { automation: automations[k], deleted_at: now },
                    ),
                ),
            ),
        ),
    }
}

/// The position of the first automation with the given id.
fn find_active(automations: &Vec<Automation>, id: &str) -> (r: Option<usize>)
    ensures
        match r {
            Some(k) => first_with_id(automations@, id@, k as int),
            None => forall|j: int| 0 <= j < automations@.len() ==> automations@[j].id@ != id@,
        },
{
    let mut i: usize = 0;
    while i < automations.len()
        invariant
            i <= automations@.len(),
            forall|j: int| 0 <= j < i ==> automations@[j].id@ != id@,
        decreases automations@.len() - i,
    {
        if str_eq(automations[i].id.as_str(), id) {
            return Some(i);
        }
        i = i + 1;
    }
    None
}

/// The position of the first Trash entry with the given id.
fn find_trashed(trash: &Vec<AutomationTrashEntry>, id: &str) -> (r: Option<usize>)
    ensures
        match r {
            Some(k) => first_trashed_with_id(trash@, id@, k as int),
            None => forall|j: int| 0 <= j < trash@.len() ==> trash@[j].automation.id@ != id@,
        },
{
    let mut i: usize = 0;
    while i < trash.len()
        invariant
            i <= trash@.len(),
            forall|j: int| 0 <= j < i ==> trash@[j].automation.id@ != id@,
        decreases trash@.len() - i,
    {
        if str_eq(trash[i].automation.id.as_str(), id) {
            return Some(i);
        }
        i = i + 1;
    }
    None
}

/// Moves the automation with the given id to the Trash, stamped with `now`.
/// An older Trash entry of the same id is replaced; the Trash stays newest
/// first.
pub fn move_automation_to_trash_inner(
    automations: Vec<Automation>,
    trash: Vec<AutomationTrashEntry>,
    id: &str,
    now: u64,
) -> (r: Result<AutomationTrashMutationResult, String>)
    ensures
        match after_move(automations@, trash@, id@, now) {
            None => r is Err && r->Err_0@ == "Automation no longer exists."@,
            Some((active, bin)) => r is Ok && r->Ok_0.automations@ == active && r->Ok_0.trash@
                == bin,
        },
{
    let mut automations = automations;
    let ghost active = automations@;
    let k = match find_active(&automations, id) {
        Some(k) => k,
        None => {
            return Err(owned("Automation no longer exists."));
        },
    };
    proof {
        lemma_first_unique(active, id@, k as int);
    }
    let automation = automations.remove(k);
    let ghost orig = trash@;
    let mut pending = trash;
    let mut kept: Vec<AutomationTrashEntry> = Vec::new();
    let mut i: usize = 0;
    let n = pending.len();
    while pending.len() > 0
        invariant
            n == orig.len(),
            i + pending@.len() == n,
            pending@ == orig.skip(i as int),
            kept@ == without_trashed_id(orig.take(i as int), id@),
        decreases pending@.len(),
    {
        let ghost before = pending@;
        let e = pending.remove(0);
        assert(before[0] == orig[i as int]);
        assert(pending@ =~= orig.skip(i + 1));
        assert(orig.take(i + 1).drop_last() =~= orig.take(i as int));
        if !str_eq(e.automation.id.as_str(), id) {
            kept.push(e);
        }
        i = i + 1;
    }
    assert(orig.take(n as int) =~= orig);
    kept.push(AutomationTrashEntry { automation, deleted_at: now });
    sort_newest_first(&mut kept);
    Ok(AutomationTrashMutationResult { automations, trash: kept })
}

/// Whether two names are the same once trimmed, ignoring ASCII case.
pub open spec fn same_name_ignoring_case(a: Seq<char>, b: Seq<char>) -> bool {
    text::ascii_lower_seq(text::trim(a)) == text::ascii_lower_seq(text::trim(b))
}

/// The message for a restore that would duplicate an active name.
pub open spec fn restore_name_conflict(name: Seq<char>) -> Seq<char> {
    "Automation \""@ + name
        + "\" already exists. Rename or delete the active automation before restoring."@
}

/// The lists after restoring the Trash entry with the given id, or why it
/// is refused: it is gone, or its id or (ignoring ASCII case and
/// surrounding whitespace) its name is already active.
pub open spec fn after_restore(
    automations: Seq<Automation>,
    trash: Seq<AutomationTrashEntry>,
    id: Seq<char>,
) -> Result<(Seq<Automation>, Seq<AutomationTrashEntry>), Seq<char>> {
    match position_of_trashed_id(trash, id) {
        None => Err("Deleted automation no longer exists."@),
        Some(k) => {
            let a = trash[k].automation;
            if exists|j: int| 0 <= j < automations.len() && automations[j].id@ == a.id@ {
                Err("An active automation already uses this id."@)
            } else if exists|j: int|
                0 <= j < automations.len() && same_name_ignoring_case(
                    #[trigger] automations[j].name@,
                    a.name@,
                ) {
                Err(restore_name_conflict(a.name@))
            } else {
                Ok((order::in_order(automations.push(a)), trash.remove(k)))
            }
        },
    }
}

/// Restores the Trash entry with the given id into the active list, which
/// stays in order. Refused when the id or, ignoring ASCII case and
/// surrounding whitespace, the name is already active.
pub fn restore_trash_automation_inner(
    automations: Vec<Automation>,
    trash: Vec<AutomationTrashEntry>,
    id: &str,
) -> (r: Result<AutomationTrashMutationResult, String>)
    ensures
        match after_restore(automations@, trash@, id@) {
            Err(m) => r is Err && r->Err_0@ == m,
            Ok((active, bin)) => r is Ok && r->Ok_0.automations@ == active && r->Ok_0.trash@ == bin,
        },
{
    let k = match find_trashed(&trash, id) {
        Some(k) => k,
        None => {
            return Err(owned("Deleted automation no longer exists."));
        },
    };
    proof {
        lemma_first_trashed_unique(trash@, id@, k as int);
    }
    let mut i: usize = 0;
    while i < automations.len()
        invariant
            i <= automations@.len(),
            k < trash@.len(),
            position_of_trashed_id(trash@, id@) == Some(k as int),
            forall|j: int| 0 <= j < i ==> automations@[j].id@ != trash@[k as int].automation.id@,
        decreases automations@.len() - i,
    {
        if automations[i].id == trash[k].automation.id {
            return Err(owned("An active automation already uses this id."));
        }
        i = i + 1;
    }
    let wanted = lower_ascii_chars(&trim_chars(&chars_of(trash[k].automation.name.as_str())));
    let mut i: usize = 0;
    while i < automations.len()
        invariant
            i <= automations@.len(),
            k < trash@.len(),
            position_of_trashed_id(trash@, id@) == Some(k as int),
            forall|j: int|
                0 <= j < automations@.len() ==> automations@[j].id@ != trash@[k as int].automation.id@,
            wanted@ == text::ascii_lower_seq(text::trim(trash@[k as int].automation.name@)),
            forall|j: int|
                0 <= j < i ==> !same_name_ignoring_case(
                    #[trigger] automations@[j].name@,
                    trash@[k as int].automation.name@,
                ),
        decreases automations@.len() - i,
    {
        let other = lower_ascii_chars(&trim_chars(&chars_of(automations[i].name.as_str())));
        if eq_chars(&other, &wanted) {
            let ghost j = i as int;
            assert(same_name_ignoring_case(automations@[j].name@, trash@[k as int].automation.name@));
            return Err(
                concat3(
                    "Automation \"",
                    trash[k].automation.name.as_str(),
                    "\" already exists. Rename or delete the active automation before restoring.",
                ),
            );
        }
        i = i + 1;
    }
    let mut bin = trash;
    let entry = bin.remove(k);
    let mut active = automations;
    active.push(entry.automation);
    sort_in_order(&mut active);
    Ok(AutomationTrashMutationResult { automations: active, trash: bin })
}

proof fn lemma_without_trashed_id(s: Seq<AutomationTrashEntry>, id: Seq<char>)
    ensures
        forall|j: int|
            0 <= j < without_trashed_id(s, id).len() ==> (#[trigger] without_trashed_id(s, id)[j]).automation.id@
                != id,
    decreases s.len(),
{
    if s.len() > 0 {
        lemma_without_trashed_id(s.drop_last(), id);
    }
}

proof fn lemma_first_trashed_exists(s: Seq<AutomationTrashEntry>, id: Seq<char>, i: int)
    requires
        0 <= i < s.len(),
        s[i].automation.id@ == id,
    ensures
        exists|k: int| first_trashed_with_id(s, id, k),
    decreases i,
{
    if exists|j: int| 0 <= j < i && s[j].automation.id@ == id {
        let j = choose|j: int| 0 <= j < i && s[j].automation.id@ == id;
        lemma_first_trashed_exists(s, id, j);
    } else {
        assert(first_trashed_with_id(s, id, i));
    }
}

/// Restoring an automation right after moving it to the Trash gives the
/// active list its automations back and leaves the Trash as it was, less
/// older entries of that id, when no other active automation shares the
/// moved one's id or name.
pub proof fn lemma_trash_round_trip(
    automations: Seq<Automation>,
    trash: Seq<AutomationTrashEntry>,
    id: Seq<char>,
    now: u64,
)
    requires
        after_move(automations, trash, id, now) is Some,
        forall|i: int, j: int|
            #![trigger automations[i], automations[j]]
            0 <= i < automations.len() && 0 <= j < automations.len() && i != j
                && automations[i].id@ == id ==> automations[j].id@ != id && !same_name_ignoring_case(
                automations[j].name@,
                automations[i].name@,
            ),
    ensures
        ({
            let (active, bin) = after_move(automations, trash, id, now)->Some_0;
            after_restore(active, bin, id) matches Ok((restored, rest)) && restored.to_multiset()
                == automations.to_multiset() && rest.to_multiset() == without_trashed_id(
                trash,
                id,
            ).to_multiset()
        }),
{
    broadcast use vstd::seq_lib::group_to_multiset_ensures;
    broadcast use vstd::multiset::group_multiset_axioms;

    let k = position_of_id(automations, id)->Some_0;
    let c = choose|k: int| first_with_id(automations, id, k);
    assert(first_with_id(automations, id, c));
    assert(k == c);
    let a = automations[k];
    let active = automations.remove(k);
    let f = without_trashed_id(trash, id);
    let e = AutomationTrashEntry { automation: a, deleted_at: now };
    let staged = f.push(e);
    let bin = trash::newest_first(staged);
    lemma_without_trashed_id(trash, id);
    trash::lemma_newest_first(staged);
    assert(staged[staged.len() - 1] == e);
    assert(staged.to_multiset().count(e) > 0);
    assert(bin.to_multiset().count(e) > 0);
    assert(bin.contains(e));
    let i = choose|i: int| 0 <= i < bin.len() && bin[i] == e;
    lemma_first_trashed_exists(bin, id, i);
    let k2 = choose|k: int| first_trashed_with_id(bin, id, k);
    lemma_first_trashed_unique(bin, id, k2);
    assert(bin[k2] == e) by {
        let x = bin[k2];
        assert(bin.to_multiset().count(x) > 0);
        assert(staged.to_multiset().count(x) > 0);
        assert(staged.contains(x));
        let q = choose|q: int| 0 <= q < staged.len() && staged[q] == x;
        if q < f.len() {
            assert(f[q] == staged[q]);
        }
    }
    assert(!exists|j: int| 0 <= j < active.len() && active[j].id@ == a.id@) by {
        if exists|j: int| 0 <= j < active.len() && active[j].id@ == a.id@ {
            let j = choose|j: int| 0 <= j < active.len() && active[j].id@ == a.id@;
            let jj = if j < k {
                j
            } else {
                j + 1
            };
            assert(active[j] == automations[jj]);
            assert(jj != k && 0 <= jj < automations.len());
            assert(automations[k].id@ == id);
            assert(automations[jj].id@ != id && !same_name_ignoring_case(
                automations[jj].name@,
                automations[k].name@,
            ));
        }
    }
    assert(!exists|j: int|
        0 <= j < active.len() && same_name_ignoring_case(#[trigger] active[j].name@, a.name@)) by {
        if exists|j: int|
            0 <= j < active.len() && same_name_ignoring_case(#[trigger] active[j].name@, a.name@) {
            let j = choose|j: int|
                0 <= j < active.len() && same_name_ignoring_case(#[trigger] active[j].name@, a.name@);
            let jj = if j < k {
                j
            } else {
                j + 1
            };
            assert(active[j] == automations[jj]);
            assert(jj != k && 0 <= jj < automations.len());
            assert(automations[k].id@ == id);
            assert(automations[jj].id@ != id && !same_name_ignoring_case(
                automations[jj].name@,
                automations[k].name@,
            ));
        }
    }
    let restored = order::in_order(active.push(a));
    order::lemma_in_order_multiset(active.push(a));
    assert(active.to_multiset() == automations.to_multiset().remove(a));
    assert(restored.to_multiset() =~= automations.to_multiset());
    assert(bin.remove(k2).to_multiset() == bin.to_multiset().remove(e));
    assert(bin.remove(k2).to_multiset() =~= f.to_multiset());
}

/// Whether the id is among the chosen ids.
pub open spec fn id_chosen(ids: Seq<String>, id: Seq<char>) -> bool {
    exists|i: int| 0 <= i < ids.len() && ids[i]@ == id
}

/// The number of different ids among the chosen ids.
pub open spec fn distinct_ids(ids: Seq<String>) -> nat
    decreases ids.len(),
{
    if ids.len() == 0 {
        0
    } else if id_chosen(ids.drop_last(), ids.last()@) {
        distinct_ids(ids.drop_last())
    } else {
        distinct_ids(ids.drop_last()) + 1
    }
}

/// The automations of a backup whose id was chosen, in backup order.
pub open spec fn chosen_from(s: Seq<Automation>, ids: Seq<String>) -> Seq<Automation>
    decreases s.len(),
{
    if s.len() == 0 {
        Seq::empty()
    } else {
        let prev = chosen_from(s.drop_last(), ids);
        if id_chosen(ids, s.last().id@) {
            prev.push(s.last())
        } else {
            prev
        }
    }
}

/// Whether one of the automations carries the given name.
pub open spec fn name_taken(s: Seq<Automation>, name: Seq<char>) -> bool {
    exists|j: int| 0 <= j < s.len() && s[j].name@ == name
}

/// The automations whose name is not among the imported ones.
pub open spec fn without_names(current: Seq<Automation>, imported: Seq<Automation>) -> Seq<
    Automation,
>
    decreases current.len(),
{
    if current.len() == 0 {
        Seq::empty()
    } else {
        let prev = without_names(current.drop_last(), imported);
        if name_taken(imported, current.last().name@) {
            prev
        } else {
            prev.push(current.last())
        }
    }
}

/// How many automations carry a name among the imported ones.
pub open spec fn count_named(current: Seq<Automation>, imported: Seq<Automation>) -> nat
    decreases current.len(),
{
    if current.len() == 0 {
        0
    } else if name_taken(imported, current.last().name@) {
        count_named(current.drop_last(), imported) + 1
    } else {
        count_named(current.drop_last(), imported)
    }
}

/// The id an imported automation gets: `automation-backup-{time}-{index}-{id}`.
pub open spec fn imported_automation_id(stamp: u64, index: int, id: Seq<char>) -> Seq<char> {
    "automation-backup-"@ + shell_alias::decimal(stamp as nat) + "-"@ + shell_alias::decimal(
        index as nat,
    ) + "-"@ + id
}

/// The id an imported step gets:
/// `automation-backup-step-{time}-{index}-{step index}-{id}`.
pub open spec fn imported_step_id(stamp: u64, index: int, step: int, id: Seq<char>) -> Seq<char> {
    "automation-backup-step-"@ + shell_alias::decimal(stamp as nat) + "-"@ + shell_alias::decimal(
        index as nat,
    ) + "-"@ + shell_alias::decimal(step as nat) + "-"@ + id
}

/// `new` is `old` with a fresh step id.
pub open spec fn step_relabeled(
    old: AutomationStep,
    new: AutomationStep,
    stamp: u64,
    index: int,
    step: int,
) -> bool {
    &&& new.id@ == imported_step_id(stamp, index, step, old.id@)
    &&& new.kind == old.kind
    &&& new.command == old.command
    &&& new.seconds == old.seconds
    &&& new.behavior == old.behavior
}

/// `new` is `old` as imported: fresh ids for it and its steps, and the
/// import time as its last change; everything else kept.
pub open spec fn relabeled(
    old: Automation,
    new: Automation,
    stamp: u64,
    index: int,
    imported_at: Seq<char>,
) -> bool {
    &&& new.id@ == imported_automation_id(stamp, index, old.id@)
    &&& new.name == old.name
    &&& new.path == old.path
    &&& new.favorite == old.favorite
    &&& new.group == old.group
    &&& new.hotkey == old.hotkey
    &&& new.created_at == old.created_at
    &&& new.updated_at@ == imported_at
    &&& new.steps@.len() == old.steps@.len()
    &&& forall|s: int|
        0 <= s < old.steps@.len() ==> step_relabeled(
            old.steps@[s],
            #[trigger] new.steps@[s],
            stamp,
            index,
            s,
        )
}

fn relabel_step(step: AutomationStep, stamp: u64, index: usize, position: usize) -> (r:
    AutomationStep)
    ensures
        step_relabeled(step, r, stamp, index as int, position as int),
{
    let mut v: Vec<char> = Vec::new();
    push_str(&mut v, "automation-backup-step-");
    push_decimal(&mut v, stamp);
    push_str(&mut v, "-");
    push_decimal(&mut v, index as u64);
    push_str(&mut v, "-");
    push_decimal(&mut v, position as u64);
    push_str(&mut v, "-");
    push_str(&mut v, step.id.as_str());
    assert(v@ =~= imported_step_id(stamp, index as int, position as int, step.id@));
    AutomationStep {
        id: string_of(&v),
        kind: step.kind,
        command: step.command,
        seconds: step.seconds,
        behavior: step.behavior,
    }
}

fn relabel_automation(a: Automation, stamp: u64, index: usize, imported_at: &str) -> (r: Automation)
    ensures
        relabeled(a, r, stamp, index as int, imported_at@),
{
    let mut v: Vec<char> = Vec::new();
    push_str(&mut v, "automation-backup-");
    push_decimal(&mut v, stamp);
    push_str(&mut v, "-");
    push_decimal(&mut v, index as u64);
    push_str(&mut v, "-");
    push_str(&mut v, a.id.as_str());
    assert(v@ =~= imported_automation_id(stamp, index as int, a.id@));
    let ghost old_steps = a.steps@;
    let mut pending = a.steps;
    let mut steps: Vec<AutomationStep> = Vec::new();
    let n = pending.len();
    let mut s: usize = 0;
    while pending.len() > 0
        invariant
            n == old_steps.len(),
            s + pending@.len() == n,
            pending@ == old_steps.skip(s as int),
            steps@.len() == s,
            forall|t: int|
                0 <= t < s ==> step_relabeled(
                    old_steps[t],
                    #[trigger] steps@[t],
                    stamp,
                    index as int,
                    t,
                ),
        decreases pending@.len(),
    {
        let ghost before = pending@;
        let step = pending.remove(0);
        assert(before[0] == old_steps[s as int]);
        assert(pending@ =~= old_steps.skip(s + 1));
        let next = relabel_step(step, stamp, index, s);
        steps.push(next);
        s = s + 1;
    }
    Automation {
        id: string_of(&v),
        name: a.name,
        path: a.path,
        steps,
        favorite: a.favorite,
        group: a.group,
        hotkey: a.hotkey,
        created_at: a.created_at,
        updated_at: owned(imported_at),
    }
}

/// Whether an id is among the chosen ids.
pub(crate) fn is_chosen(ids: &Vec<String>, id: &str, upto: usize) -> (r: bool)
    requires
        upto <= ids@.len(),
    ensures
        r == id_chosen(ids@.take(upto as int), id@),
{
    let mut i: usize = 0;
    while i < upto
        invariant
            i <= upto <= ids@.len(),
            forall|j: int| 0 <= j < i ==> ids@[j]@ != id@,
        decreases upto - i,
    {
        if str_eq(ids[i].as_str(), id) {
            assert(ids@.take(upto as int)[i as int] == ids@[i as int]);
            return true;
        }
        i = i + 1;
    }
    assert forall|j: int| 0 <= j < upto implies ids@.take(upto as int)[j]@ != id@ by {
        assert(ids@.take(upto as int)[j] == ids@[j]);
    }
    false
}

/// Whether one of the automations carries the given name.
fn has_name(s: &Vec<Automation>, name: &String) -> (r: bool)
    ensures
        r == name_taken(s@, name@),
{
    let mut i: usize = 0;
    while i < s.len()
        invariant
            i <= s@.len(),
            forall|j: int| 0 <= j < i ==> s@[j].name@ != name@,
        decreases s@.len() - i,
    {
        if s[i].name == *name {
            return true;
        }
        i = i + 1;
    }
    false
}

/// Imports the chosen automations of a backup. An imported automation
/// replaces every active one of the same name; it gets fresh ids built from
/// `stamp` (the import's Unix time) so it cannot collide with newer data, and
/// `imported_at` as its last change. The active list stays in order.
pub fn import_automation_backup_inner(
    backup: Vec<Automation>,
    current: Vec<Automation>,
    selected_ids: &Vec<String>,
    imported_at: &str,
    stamp: u64,
) -> (r: Result<AutomationBackupImportResult, String>)
    ensures
        selected_ids@.len() == 0 ==> r is Err && r->Err_0@
            == "Select at least one automation to import."@,
        selected_ids@.len() > 0 && text::trim(imported_at@).len() == 0 ==> r is Err && r->Err_0@
            == "Import timestamp is missing."@,
        selected_ids@.len() > 0 && text::trim(imported_at@).len() > 0 && chosen_from(
            backup@,
            selected_ids@,
        ).len() != distinct_ids(selected_ids@) ==> r is Err && r->Err_0@
            == "Some selected automations are no longer present in the backup."@,
        selected_ids@.len() > 0 && text::trim(imported_at@).len() > 0 && chosen_from(
            backup@,
            selected_ids@,
        ).len() == distinct_ids(selected_ids@) ==> {
            let chosen = chosen_from(backup@, selected_ids@);
            &&& r is Ok
            &&& r->Ok_0.imported_count == chosen.len()
            &&& r->Ok_0.replaced_count == count_named(current@, chosen)
            &&& exists|renamed: Seq<Automation>|
                renamed.len() == chosen.len() && (forall|i: int|
                    0 <= i < chosen.len() ==> relabeled(
                        chosen[i],
                        #[trigger] renamed[i],
                        stamp,
                        i,
                        imported_at@,
                    )) && r->Ok_0.automations@ == order::in_order(
                    without_names(current@, chosen) + renamed,
                )
        },
{
    if selected_ids.len() == 0 {
        return Err(owned("Select at least one automation to import."));
    }
    if is_blank_str(imported_at) {
        return Err(owned("Import timestamp is missing."));
    }
    let ghost ids = selected_ids@;
    let mut distinct: usize = 0;
    let mut i: usize = 0;
    while i < selected_ids.len()
        invariant
            i <= ids.len(),
            ids == selected_ids@,
            distinct == distinct_ids(ids.take(i as int)),
            distinct <= i,
        decreases ids.len() - i,
    {
        assert(ids.take(i + 1).drop_last() =~= ids.take(i as int));
        let seen = is_chosen(selected_ids, selected_ids[i].as_str(), i);
        if !seen {
            distinct = distinct + 1;
        }
        i = i + 1;
    }
    assert(ids.take(ids.len() as int) =~= ids);
    let ghost b0 = backup@;
    let mut pending = backup;
    let mut chosen: Vec<Automation> = Vec::new();
    let n = pending.len();
    let mut i: usize = 0;
    while pending.len() > 0
        invariant
            n == b0.len(),
            ids == selected_ids@,
            i + pending@.len() == n,
            pending@ == b0.skip(i as int),
            chosen@ == chosen_from(b0.take(i as int), ids),
        decreases pending@.len(),
    {
        let ghost before = pending@;
        let a = pending.remove(0);
        assert(before[0] == b0[i as int]);
        assert(pending@ =~= b0.skip(i + 1));
        assert(b0.take(i + 1).drop_last() =~= b0.take(i as int));
        let wanted = is_chosen(selected_ids, a.id.as_str(), selected_ids.len());
        assert(ids.take(ids.len() as int) =~= ids);
        if wanted {
            chosen.push(a);
        }
        i = i + 1;
    }
    assert(b0.take(n as int) =~= b0);
    if chosen.len() != distinct {
        return Err(owned("Some selected automations are no longer present in the backup."));
    }
    let ghost c0 = current@;
    let mut pending = current;
    let mut kept: Vec<Automation> = Vec::new();
    let mut replaced: usize = 0;
    let m = pending.len();
    let mut i: usize = 0;
    while pending.len() > 0
        invariant
            m == c0.len(),
            i + pending@.len() == m,
            pending@ == c0.skip(i as int),
            kept@ == without_names(c0.take(i as int), chosen@),
            replaced == count_named(c0.take(i as int), chosen@),
            replaced <= i,
        decreases pending@.len(),
    {
        let ghost before = pending@;
        let a = pending.remove(0);
        assert(before[0] == c0[i as int]);
        assert(pending@ =~= c0.skip(i + 1));
        assert(c0.take(i + 1).drop_last() =~= c0.take(i as int));
        if has_name(&chosen, &a.name) {
            replaced = replaced + 1;
        } else {
            kept.push(a);
        }
        i = i + 1;
    }
    assert(c0.take(m as int) =~= c0);
    let ghost sel = chosen@;
    let imported_count = chosen.len();
    let ghost base = kept@;
    let mut pending = chosen;
    let mut renamed: Vec<Automation> = Vec::new();
    let mut i: usize = 0;
    while pending.len() > 0
        invariant
            imported_count == sel.len(),
            i + pending@.len() == imported_count,
            pending@ == sel.skip(i as int),
            renamed@.len() == i,
            forall|t: int|
                0 <= t < i ==> relabeled(sel[t], #[trigger] renamed@[t], stamp, t, imported_at@),
        decreases pending@.len(),
    {
        let ghost before = pending@;
        let a = pending.remove(0);
        assert(before[0] == sel[i as int]);
        assert(pending@ =~= sel.skip(i + 1));
        let next = relabel_automation(a, stamp, i, imported_at);
        renamed.push(next);
        i = i + 1;
    }
    let ghost rn = renamed@;
    let mut all = kept;
    all.append(&mut renamed);
    assert(all@ == base + rn);
    sort_in_order(&mut all);
    Ok(AutomationBackupImportResult { automations: all, imported_count, replaced_count: replaced })
}

fn drop_trashed_automation(bin: Vec<AutomationTrashEntry>, id: &str) -> (r: Vec<AutomationTrashEntry>)
    ensures
        r@ == without_trashed_id(bin@, id@),
{
    let ghost orig = bin@;
    let mut pending = bin;
    let mut kept: Vec<AutomationTrashEntry> = Vec::new();
    let mut i: usize = 0;
    let n = pending.len();
    while pending.len() > 0
        invariant
            n == orig.len(),
            i + pending@.len() == n,
            pending@ == orig.skip(i as int),
            kept@ == without_trashed_id(orig.take(i as int), id@),
        decreases pending@.len(),
    {
        let ghost before = pending@;
        let e = pending.remove(0);
        assert(before[0] == orig[i as int]);
        assert(pending@ =~= orig.skip(i + 1));
        assert(orig.take(i + 1).drop_last() =~= orig.take(i as int));
        if !str_eq(e.automation.id.as_str(), id) {
            kept.push(e);
        }
        i = i + 1;
    }
    assert(orig.take(n as int) =~= orig);
    kept
}

/// Deletes the Trash entries of the given id for good; refused when there
/// is none.
pub fn permanently_delete_trash_automation(bin: Vec<AutomationTrashEntry>, id: &str) -> (r: Result<
    Vec<AutomationTrashEntry>,
    String,
>)
    ensures
        without_trashed_id(bin@, id@).len() == bin@.len() ==> r is Err && r->Err_0@
            == "Deleted automation no longer exists."@,
        without_trashed_id(bin@, id@).len() != bin@.len() ==> r is Ok && r->Ok_0@
            == without_trashed_id(bin@, id@),
{
    let n = bin.len();
    let kept = drop_trashed_automation(bin, id);
    if kept.len() == n {
        return Err(owned("Deleted automation no longer exists."));
    }
    Ok(kept)
}

/// The automations chosen for an export: refused when nothing is chosen,
/// the destination or the timestamp is blank, a chosen automation is gone,
/// or the chosen ones do not form a valid backup.
pub fn export_automation_backup(
    automations: Vec<Automation>,
    selected_ids: &Vec<String>,
    destination: &str,
    exported_at: &str,
) -> (r: Result<Vec<Automation>, String>)
    ensures
        ({
            let chosen = chosen_from(automations@, selected_ids@);
            if selected_ids@.len() == 0 {
                r is Err && r->Err_0@ == "Select at least one automation to export."@
            } else if text::trim(destination@).len() == 0 {
                r is Err && r->Err_0@ == "Choose where to save the backup."@
            } else if text::trim(exported_at@).len() == 0 {
                r is Err && r->Err_0@ == "Export timestamp is missing."@
            } else if chosen.len() != distinct_ids(selected_ids@) {
                r is Err && r->Err_0@ == "Some automations changed. Reopen Export and try again."@
            } else {
                match crate::automation::automation_backup_error(chosen) {
                    Some(e) => r is Err && r->Err_0@ == e,
                    None => r is Ok && r->Ok_0@ == chosen,
                }
            }
        }),
{
    if selected_ids.len() == 0 {
        return Err(owned("Select at least one automation to export."));
    }
    if is_blank_str(destination) {
        return Err(owned("Choose where to save the backup."));
    }
    if is_blank_str(exported_at) {
        return Err(owned("Export timestamp is missing."));
    }
    let ghost ids = selected_ids@;
    let mut distinct: usize = 0;
    let mut i: usize = 0;
    while i < selected_ids.len()
        invariant
            i <= ids.len(),
            ids == selected_ids@,
            distinct == distinct_ids(ids.take(i as int)),
            distinct <= i,
        decreases ids.len() - i,
    {
        assert(ids.take(i + 1).drop_last() =~= ids.take(i as int));
        let seen = is_chosen(selected_ids, selected_ids[i].as_str(), i);
        if !seen {
            distinct = distinct + 1;
        }
        i = i + 1;
    }
    assert(ids.take(ids.len() as int) =~= ids);
    let ghost b0 = automations@;
    let mut pending = automations;
    let mut chosen: Vec<Automation> = Vec::new();
    let n = pending.len();
    let mut i: usize = 0;
    while pending.len() > 0
        invariant
            n == b0.len(),
            ids == selected_ids@,
            i + pending@.len() == n,
            pending@ == b0.skip(i as int),
            chosen@ == chosen_from(b0.take(i as int), ids),
        decreases pending@.len(),
    {
        let ghost before = pending@;
        let a = pending.remove(0);
        assert(before[0] == b0[i as int]);
        assert(pending@ =~= b0.skip(i + 1));
        assert(b0.take(i + 1).drop_last() =~= b0.take(i as int));
        let wanted = is_chosen(selected_ids, a.id.as_str(), selected_ids.len());
        assert(ids.take(ids.len() as int) =~= ids);
        if wanted {
            chosen.push(a);
        }
        i = i + 1;
    }
    assert(b0.take(n as int) =~= b0);
    if chosen.len() != distinct {
        return Err(owned("Some automations changed. Reopen Export and try again."));
    }
    match crate::automation::validate_automation_backup_collection(chosen.as_slice()) {
        Err(e) => Err(e),
        Ok(()) => Ok(chosen),
    }
}

} // verus!
