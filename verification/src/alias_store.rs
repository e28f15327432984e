//! Moving aliases between the active list, the Trash and backups.
//!
//! Each operation takes the lists as they were read and gives back the lists
//! to write; reading and writing the files is left to the caller.

use vstd::prelude::*;
use crate::text;
use crate::order;
use crate::trash;
use crate::shell_alias;
use crate::automation_store;
use crate::alias_entry;
use crate::text::{is_blank_str, push_str, string_of};
use crate::message::{concat3, owned, str_eq};
use crate::alias_entry::{validate_alias_collection, AliasEntry};
use crate::trash::{sort_newest_first, TrashEntry};
use crate::order::sort_in_order;
use crate::shell_alias::push_decimal;

verus! {

/// The active aliases and the Trash after a change to both.
pub struct AliasTrashMutation {
    pub aliases: Vec<AliasEntry>,
    pub trash: Vec<TrashEntry>,
}

/// The active aliases after a backup import, with how many were added and
/// how many existing ones they replaced.
pub struct AliasImport {
    pub aliases: Vec<AliasEntry>,
    pub imported_count: usize,
    pub replaced_count: usize,
}

/// Whether `k` is the first position of an alias with the given id.
pub open spec fn first_alias_with_id(s: Seq<AliasEntry>, id: Seq<char>, k: int) -> bool {
    0 <= k < s.len() && s[k].id@ == id && forall|j: int| 0 <= j < k ==> s[j].id@ != id
}

/// The first position of an alias with the given id.
pub open spec fn alias_position(s: Seq<AliasEntry>, id: Seq<char>) -> Option<int> {
    if exists|k: int| first_alias_with_id(s, id, k) {
        Some(choose|k: int| first_alias_with_id(s, id, k))
    } else {
        None
    }
}

/// Whether `k` is the first position of a Trash entry with the given id.
pub open spec fn first_trashed_alias(s: Seq<TrashEntry>, id: Seq<char>, k: int) -> bool {
    0 <= k < s.len() && s[k].alias.id@ == id && forall|j: int| 0 <= j < k ==> s[j].alias.id@ != id
}

/// The first position of a Trash entry with the given id.
pub open spec fn trashed_alias_position(s: Seq<TrashEntry>, id: Seq<char>) -> Option<int> {
    if exists|k: int| first_trashed_alias(s, id, k) {
        Some(choose|k: int| first_trashed_alias(s, id, k))
    } else {
        None
    }
}

proof fn lemma_alias_position(s: Seq<AliasEntry>, id: Seq<char>, k: int)
    requires
        first_alias_with_id(s, id, k),
    ensures
        alias_position(s, id) == Some(k),
{
    let c = choose|k: int| first_alias_with_id(s, id, k);
    assert(first_alias_with_id(s, id, c));
    if c < k {
        assert(s[c].id@ != id);
    }
    if k < c {
        assert(s[k].id@ != id);
    }
}

proof fn lemma_trashed_alias_position(s: Seq<TrashEntry>, id: Seq<char>, k: int)
    requires
        first_trashed_alias(s, id, k),
    ensures
        trashed_alias_position(s, id) == Some(k),
{
    let c = choose|k: int| first_trashed_alias(s, id, k);
    assert(first_trashed_alias(s, id, c));
    if c < k {
        assert(s[c].alias.id@ != id);
    }
    if k < c {
        assert(s[k].alias.id@ != id);
    }
}

/// The Trash without the entries of the given id, in their order.
pub open spec fn without_alias_id(s: Seq<TrashEntry>, id: Seq<char>) -> Seq<TrashEntry>
    decreases s.len(),
{
    if s.len() == 0 {
        Seq::empty()
    } else {
        let prev = without_alias_id(s.drop_last(), id);
        if s.last().alias.id@ != id {
            prev.push(s.last())
        } else {
            prev
        }
    }
}

/// The lists after moving the alias with the given id to the Trash at
/// `now`; `None` when no alias has the id.
pub open spec fn after_alias_move(
    aliases: Seq<AliasEntry>,
    bin: Seq<TrashEntry>,
    id: Seq<char>,
    now: u64,
) -> Option<(Seq<AliasEntry>, Seq<TrashEntry>)> {
    match alias_position(aliases, id) {
        None => None,
        Some(k) => Some(
            (
                aliases.remove(k),
                trash::newest_first(
                    without_alias_id(bin, id).push(TrashEntry { alias: aliases[k], deleted_at: now }),
                ),
            ),
        ),
    }
}

/// The message for a restore that would duplicate an active name.
pub open spec fn alias_name_conflict(name: Seq<char>) -> Seq<char> {
    "Alias \""@ + name + "\" already exists. Rename or delete the active alias before restoring."@
}

/// The lists after restoring the Trash entry with the given id, or why it
/// is refused: it is gone, or its name or id is already active.
pub open spec fn after_alias_restore(
    aliases: Seq<AliasEntry>,
    bin: Seq<TrashEntry>,
    id: Seq<char>,
) -> Result<(Seq<AliasEntry>, Seq<TrashEntry>), Seq<char>> {
    match trashed_alias_position(bin, id) {
        None => Err("Deleted alias no longer exists."@),
        Some(k) => {
            let a = bin[k].alias;
            if exists|j: int| 0 <= j < aliases.len() && aliases[j].name@ == a.name@ {
                Err(alias_name_conflict(a.name@))
            } else if exists|j: int| 0 <= j < aliases.len() && aliases[j].id@ == a.id@ {
                Err("An active alias already uses this id."@)
            } else {
                Ok((order::in_order(aliases.push(a)), bin.remove(k)))
            }
        },
    }
}

fn find_alias(aliases: &Vec<AliasEntry>, id: &str) -> (r: Option<usize>)
    ensures
        match r {
            Some(k) => first_alias_with_id(aliases@, id@, k as int),
            None => forall|j: int| 0 <= j < aliases@.len() ==> aliases@[j].id@ != id@,
        },
{
    let mut i: usize = 0;
    while i < aliases.len()
        invariant
            i <= aliases@.len(),
            forall|j: int| 0 <= j < i ==> aliases@[j].id@ != id@,
        decreases aliases@.len() - i,
    {
        if str_eq(aliases[i].id.as_str(), id) {
            return Some(i);
        }
        i = i + 1;
    }
    None
}

fn find_trashed_alias(bin: &Vec<TrashEntry>, id: &str) -> (r: Option<usize>)
    ensures
        match r {
            Some(k) => first_trashed_alias(bin@, id@, k as int),
            None => forall|j: int| 0 <= j < bin@.len() ==> bin@[j].alias.id@ != id@,
        },
{
    let mut i: usize = 0;
    while i < bin.len()
        invariant
            i <= bin@.len(),
            forall|j: int| 0 <= j < i ==> bin@[j].alias.id@ != id@,
        decreases bin@.len() - i,
    {
        if str_eq(bin[i].alias.id.as_str(), id) {
            return Some(i);
        }
        i = i + 1;
    }
    None
}

fn drop_trashed_alias(bin: Vec<TrashEntry>, id: &str) -> (r: Vec<TrashEntry>)
    ensures
        r@ == without_alias_id(bin@, id@),
{
    let ghost orig = bin@;
    let mut pending = bin;
    let mut kept: Vec<TrashEntry> = Vec::new();
    let mut i: usize = 0;
    let n = pending.len();
    while pending.len() > 0
        invariant
            n == orig.len(),
            i + pending@.len() == n,
            pending@ == orig.skip(i as int),
            kept@ == without_alias_id(orig.take(i as int), id@),
        decreases pending@.len(),
    {
        let ghost before = pending@;
        let e = pending.remove(0);
        assert(before[0] == orig[i as int]);
        assert(pending@ =~= orig.skip(i + 1));
        assert(orig.take(i + 1).drop_last() =~= orig.take(i as int));
        if !str_eq(e.alias.id.as_str(), id) {
            kept.push(e);
        }
        i = i + 1;
    }
    assert(orig.take(n as int) =~= orig);
    kept
}

/// Moves the alias with the given id to the Trash, stamped with `now`. An
/// older Trash entry of the same id is replaced; the Trash stays newest
/// first.
pub fn move_alias_to_trash(aliases: Vec<AliasEntry>, bin: Vec<TrashEntry>, id: &str, now: u64) -> (r:
    Result<AliasTrashMutation, String>)
    ensures
        match after_alias_move(aliases@, bin@, id@, now) {
            None => r is Err && r->Err_0@ == "Alias no longer exists."@,
            Some((active, rest)) => r is Ok && r->Ok_0.aliases@ == active && r->Ok_0.trash@ == rest,
        },
{
    let mut aliases = aliases;
    let ghost a0 = aliases@;
    let k = match find_alias(&aliases, id) {
        Some(k) => k,
        None => {
            return Err(owned("Alias no longer exists."));
        },
    };
    proof {
        lemma_alias_position(a0, id@, k as int);
    }
    let alias = aliases.remove(k);
    let mut kept = drop_trashed_alias(bin, id);
    kept.push(TrashEntry { alias, deleted_at: now });
    sort_newest_first(&mut kept);
    Ok(AliasTrashMutation { aliases, trash: kept })
}

/// Restores the Trash entry with the given id into the active list, which
/// stays in name order. Refused when its name or id is already active, so
/// a restore never replaces a newer alias.
pub fn restore_trash_alias(aliases: Vec<AliasEntry>, bin: Vec<TrashEntry>, id: &str) -> (r: Result<
    AliasTrashMutation,
    String,
>)
    ensures
        match after_alias_restore(aliases@, bin@, id@) {
            Err(m) => r is Err && r->Err_0@ == m,
            Ok((active, rest)) => r is Ok && r->Ok_0.aliases@ == active && r->Ok_0.trash@ == rest,
        },
{
    let k = match find_trashed_alias(&bin, id) {
        Some(k) => k,
        None => {
            return Err(owned("Deleted alias no longer exists."));
        },
    };
    proof {
        lemma_trashed_alias_position(bin@, id@, k as int);
    }
    let mut i: usize = 0;
    while i < aliases.len()
        invariant
            i <= aliases@.len(),
            k < bin@.len(),
            trashed_alias_position(bin@, id@) == Some(k as int),
            forall|j: int| 0 <= j < i ==> aliases@[j].name@ != bin@[k as int].alias.name@,
        decreases aliases@.len() - i,
    {
        if aliases[i].name == bin[k].alias.name {
            return Err(
                concat3(
                    "Alias \"",
                    bin[k].alias.name.as_str(),
                    "\" already exists. Rename or delete the active alias before restoring.",
                ),
            );
        }
        i = i + 1;
    }
    let mut i: usize = 0;
    while i < aliases.len()
        invariant
            i <= aliases@.len(),
            k < bin@.len(),
            trashed_alias_position(bin@, id@) == Some(k as int),
            forall|j: int| 0 <= j < aliases@.len() ==> aliases@[j].name@ != bin@[k as int].alias.name@,
            forall|j: int| 0 <= j < i ==> aliases@[j].id@ != bin@[k as int].alias.id@,
        decreases aliases@.len() - i,
    {
        if aliases[i].id == bin[k].alias.id {
            return Err(owned("An active alias already uses this id."));
        }
        i = i + 1;
    }
    let mut rest = bin;
    let entry = rest.remove(k);
    let mut active = aliases;
    active.push(entry.alias);
    sort_in_order(&mut active);
    Ok(AliasTrashMutation { aliases: active, trash: rest })
}

proof fn lemma_without_alias_id(s: Seq<TrashEntry>, id: Seq<char>)
    ensures
        forall|j: int|
            0 <= j < without_alias_id(s, id).len() ==> (#[trigger] without_alias_id(s, id)[j]).alias.id@
                != id,
    decreases s.len(),
{
    if s.len() > 0 {
        lemma_without_alias_id(s.drop_last(), id);
    }
}

proof fn lemma_first_trashed_alias_exists(s: Seq<TrashEntry>, id: Seq<char>, i: int)
    requires
        0 <= i < s.len(),
        s[i].alias.id@ == id,
    ensures
        exists|k: int| first_trashed_alias(s, id, k),
    decreases i,
{
    if exists|j: int| 0 <= j < i && s[j].alias.id@ == id {
        let j = choose|j: int| 0 <= j < i && s[j].alias.id@ == id;
        lemma_first_trashed_alias_exists(s, id, j);
    } else {
        assert(first_trashed_alias(s, id, i));
    }
}

/// Restoring an alias right after moving it to the Trash gives the active
/// list its aliases back and leaves the Trash as it was, less older entries
/// of that id, when no other active alias shares the moved one's id or name.
pub proof fn lemma_alias_trash_round_trip(
    aliases: Seq<AliasEntry>,
    bin: Seq<TrashEntry>,
    id: Seq<char>,
    now: u64,
)
    requires
        after_alias_move(aliases, bin, id, now) is Some,
        forall|i: int, j: int|
            #![trigger aliases[i], aliases[j]]
            0 <= i < aliases.len() && 0 <= j < aliases.len() && i != j && aliases[i].id@ == id
                ==> aliases[j].id@ != id && aliases[j].name@ != aliases[i].name@,
    ensures
        ({
            let (active, rest) = after_alias_move(aliases, bin, id, now)->Some_0;
            after_alias_restore(active, rest, id) matches Ok((restored, left)) && restored.to_multiset()
                == aliases.to_multiset() && left.to_multiset() == without_alias_id(bin, id).to_multiset()
        }),
{
    broadcast use vstd::seq_lib::group_to_multiset_ensures;
    broadcast use vstd::multiset::group_multiset_axioms;

    let k = alias_position(aliases, id)->Some_0;
    let c = choose|k: int| first_alias_with_id(aliases, id, k);
    assert(first_alias_with_id(aliases, id, c));
    assert(k == c);
    let a = aliases[k];
    let active = aliases.remove(k);
    let f = without_alias_id(bin, id);
    let e = TrashEntry { alias: a, deleted_at: now };
    let staged = f.push(e);
    let rest = trash::newest_first(staged);
    lemma_without_alias_id(bin, id);
    trash::lemma_newest_first(staged);
    assert(staged[staged.len() - 1] == e);
    assert(staged.to_multiset().count(e) > 0);
    assert(rest.to_multiset().count(e) > 0);
    assert(rest.contains(e));
    let i = choose|i: int| 0 <= i < rest.len() && rest[i] == e;
    lemma_first_trashed_alias_exists(rest, id, i);
    let k2 = choose|k: int| first_trashed_alias(rest, id, k);
    lemma_trashed_alias_position(rest, id, k2);
    assert(rest[k2] == e) by {
        let x = rest[k2];
        assert(rest.to_multiset().count(x) > 0);
        assert(staged.to_multiset().count(x) > 0);
        assert(staged.contains(x));
        let q = choose|q: int| 0 <= q < staged.len() && staged[q] == x;
        if q < f.len() {
            assert(f[q] == staged[q]);
        }
    }
    assert(!exists|j: int| 0 <= j < active.len() && active[j].name@ == a.name@) by {
        if exists|j: int| 0 <= j < active.len() && active[j].name@ == a.name@ {
            let j = choose|j: int| 0 <= j < active.len() && active[j].name@ == a.name@;
            let jj = if j < k {
                j
            } else {
                j + 1
            };
            assert(active[j] == aliases[jj]);
            assert(jj != k && 0 <= jj < aliases.len());
            assert(aliases[k].id@ == id);
        }
    }
    assert(!exists|j: int| 0 <= j < active.len() && active[j].id@ == a.id@) by {
        if exists|j: int| 0 <= j < active.len() && active[j].id@ == a.id@ {
            let j = choose|j: int| 0 <= j < active.len() && active[j].id@ == a.id@;
            let jj = if j < k {
                j
            } else {
                j + 1
            };
            assert(active[j] == aliases[jj]);
            assert(jj != k && 0 <= jj < aliases.len());
            assert(aliases[k].id@ == id);
        }
    }
    let restored = order::in_order(active.push(a));
    order::lemma_in_order_multiset(active.push(a));
    assert(active.to_multiset() == aliases.to_multiset().remove(a));
    assert(restored.to_multiset() =~= aliases.to_multiset());
    assert(rest.remove(k2).to_multiset() == rest.to_multiset().remove(e));
    assert(rest.remove(k2).to_multiset() =~= f.to_multiset());
}

/// Deletes the Trash entries of the given id for good; refused when there
/// is none.
pub fn permanently_delete_trash_alias(bin: Vec<TrashEntry>, id: &str) -> (r: Result<
    Vec<TrashEntry>,
    String,
>)
    ensures
        without_alias_id(bin@, id@).len() == bin@.len() ==> r is Err && r->Err_0@
            == "Deleted alias no longer exists."@,
        without_alias_id(bin@, id@).len() != bin@.len() ==> r is Ok && r->Ok_0@ == without_alias_id(
            bin@,
            id@,
        ),
{
    let n = bin.len();
    let kept = drop_trashed_alias(bin, id);
    if kept.len() == n {
        return Err(owned("Deleted alias no longer exists."));
    }
    Ok(kept)
}

/// The aliases whose id was chosen, in their order.
pub open spec fn chosen_aliases(s: Seq<AliasEntry>, ids: Seq<String>) -> Seq<AliasEntry>
    decreases s.len(),
{
    if s.len() == 0 {
        Seq::empty()
    } else {
        let prev = chosen_aliases(s.drop_last(), ids);
        if automation_store::id_chosen(ids, s.last().id@) {
            prev.push(s.last())
        } else {
            prev
        }
    }
}

fn pick_chosen(list: Vec<AliasEntry>, ids: &Vec<String>) -> (r: Vec<AliasEntry>)
    ensures
        r@ == chosen_aliases(list@, ids@),
{
    let ghost l0 = list@;
    let mut pending = list;
    let mut chosen: Vec<AliasEntry> = Vec::new();
    let n = pending.len();
    let mut i: usize = 0;
    while pending.len() > 0
        invariant
            n == l0.len(),
            i + pending@.len() == n,
            pending@ == l0.skip(i as int),
            chosen@ == chosen_aliases(l0.take(i as int), ids@),
        decreases pending@.len(),
    {
        let ghost before = pending@;
        let a = pending.remove(0);
        assert(before[0] == l0[i as int]);
        assert(pending@ =~= l0.skip(i + 1));
        assert(l0.take(i + 1).drop_last() =~= l0.take(i as int));
        let mut wanted = false;
        let mut j: usize = 0;
        while j < ids.len()
            invariant
                j <= ids@.len(),
                wanted == exists|t: int| 0 <= t < j && ids@[t]@ == a.id@,
            decreases ids@.len() - j,
        {
            if str_eq(ids[j].as_str(), a.id.as_str()) {
                wanted = true;
            }
            j = j + 1;
        }
        if wanted {
            chosen.push(a);
        }
        i = i + 1;
    }
    assert(l0.take(n as int) =~= l0);
    chosen
}

pub(crate) fn count_distinct(ids: &Vec<String>) -> (r: usize)
    ensures
        r == automation_store::distinct_ids(ids@),
{
    let ghost v = ids@;
    let mut distinct: usize = 0;
    let mut i: usize = 0;
    while i < ids.len()
        invariant
            i <= v.len(),
            v == ids@,
            distinct == automation_store::distinct_ids(v.take(i as int)),
            distinct <= i,
        decreases v.len() - i,
    {
        assert(v.take(i + 1).drop_last() =~= v.take(i as int));
        let mut seen = false;
        let mut j: usize = 0;
        while j < i
            invariant
                j <= i < v.len(),
                v == ids@,
                seen == exists|t: int| 0 <= t < j && v[t]@ == v[i as int]@,
            decreases i - j,
        {
            if str_eq(ids[j].as_str(), ids[i].as_str()) {
                seen = true;
            }
            j = j + 1;
        }
        assert(seen == automation_store::id_chosen(v.take(i as int), v[i as int]@)) by {
            if seen {
                let t = choose|t: int| 0 <= t < i && v[t]@ == v[i as int]@;
                assert(v.take(i as int)[t] == v[t]);
            }
            if automation_store::id_chosen(v.take(i as int), v[i as int]@) {
                let t = choose|t: int| 0 <= t < i && v.take(i as int)[t]@ == v[i as int]@;
                assert(v.take(i as int)[t] == v[t]);
            }
        }
        assert(v.take(i + 1).last() == v[i as int]);
        if !seen {
            distinct = distinct + 1;
        }
        i = i + 1;
    }
    assert(v.take(v.len() as int) =~= v);
    distinct
}

/// The aliases chosen for an export: refused when nothing is chosen, the
/// destination or the timestamp is blank, a chosen alias is gone, or the
/// chosen aliases do not form a valid collection.
pub fn export_alias_backup(
    aliases: Vec<AliasEntry>,
    selected_ids: &Vec<String>,
    destination: &str,
    exported_at: &str,
) -> (r: Result<Vec<AliasEntry>, String>)
    ensures
        ({
            let chosen = chosen_aliases(aliases@, selected_ids@);
            if selected_ids@.len() == 0 {
                r is Err && r->Err_0@ == "Select at least one alias to export."@
            } else if text::trim(destination@).len() == 0 {
                r is Err && r->Err_0@ == "Choose where to save the backup."@
            } else if text::trim(exported_at@).len() == 0 {
                r is Err && r->Err_0@ == "Export timestamp is missing."@
            } else if chosen.len() != automation_store::distinct_ids(selected_ids@) {
                r is Err && r->Err_0@ == "Some aliases changed. Reopen Export and try again."@
            } else {
                match alias_entry::alias_collection_error(chosen) {
                    Some(e) => r is Err && r->Err_0@ == e,
                    None => r is Ok && r->Ok_0@ == chosen,
                }
            }
        }),
{
    if selected_ids.len() == 0 {
        return Err(owned("Select at least one alias to export."));
    }
    if is_blank_str(destination) {
        return Err(owned("Choose where to save the backup."));
    }
    if is_blank_str(exported_at) {
        return Err(owned("Export timestamp is missing."));
    }
    let distinct = count_distinct(selected_ids);
    let chosen = pick_chosen(aliases, selected_ids);
    if chosen.len() != distinct {
        return Err(owned("Some aliases changed. Reopen Export and try again."));
    }
    match validate_alias_collection(chosen.as_slice()) {
        Err(e) => Err(e),
        Ok(()) => Ok(chosen),
    }
}

/// Whether one of the aliases carries the given name.
pub open spec fn alias_named(s: Seq<AliasEntry>, name: Seq<char>) -> bool {
    exists|j: int| 0 <= j < s.len() && s[j].name@ == name
}

/// The aliases whose name is not among the imported ones.
pub open spec fn without_alias_names(current: Seq<AliasEntry>, imported: Seq<AliasEntry>) -> Seq<
    AliasEntry,
>
    decreases current.len(),
{
    if current.len() == 0 {
        Seq::empty()
    } else {
        let prev = without_alias_names(current.drop_last(), imported);
        if alias_named(imported, current.last().name@) {
            prev
        } else {
            prev.push(current.last())
        }
    }
}

/// How many aliases carry a name among the imported ones.
pub open spec fn count_alias_named(current: Seq<AliasEntry>, imported: Seq<AliasEntry>) -> nat
    decreases current.len(),
{
    if current.len() == 0 {
        0
    } else if alias_named(imported, current.last().name@) {
        count_alias_named(current.drop_last(), imported) + 1
    } else {
        count_alias_named(current.drop_last(), imported)
    }
}

/// `new` is `old` as imported: id `backup-{stamp}-{id}` and the import time
/// as its last change; everything else kept.
pub open spec fn alias_relabeled(old: AliasEntry, new: AliasEntry, stamp: u64, imported_at: Seq<char>) -> bool {
    &&& new.id@ == "backup-"@ + shell_alias::decimal(stamp as nat) + "-"@ + old.id@
    &&& new.name == old.name
    &&& new.path == old.path
    &&& new.action == old.action
    &&& new.custom_command == old.custom_command
    &&& new.command_preview == old.command_preview
    &&& new.favorite == old.favorite
    &&& new.created_at == old.created_at
    &&& new.updated_at@ == imported_at
}

/// Whether `new` is `old` as an import stores it: everything but the id and
/// the update time is kept.
pub open spec fn same_alias_content(old: AliasEntry, new: AliasEntry) -> bool {
    &&& new.name == old.name
    &&& new.path == old.path
    &&& new.action == old.action
    &&& new.custom_command == old.custom_command
    &&& new.command_preview == old.command_preview
    &&& new.favorite == old.favorite
    &&& new.created_at == old.created_at
}

/// Whether every alias of `chosen` is among `stored`, with its content.
pub open spec fn all_kept(chosen: Seq<AliasEntry>, stored: Seq<AliasEntry>) -> bool {
    forall|i: int|
        0 <= i < chosen.len() ==> exists|j: int|
            0 <= j < stored.len() && same_alias_content(#[trigger] chosen[i], stored[j])
}

/// The aliases added by an import all end up in the sorted store.
proof fn lemma_added_are_stored(kept: Seq<AliasEntry>, added: Seq<AliasEntry>)
    ensures
        forall|i: int|
            0 <= i < added.len() ==> #[trigger] order::in_order(kept + added).contains(added[i]),
{
    broadcast use vstd::seq_lib::group_to_multiset_ensures;

    order::lemma_in_order_multiset(kept + added);
    assert forall|i: int| 0 <= i < added.len() implies #[trigger] order::in_order(kept + added).contains(
        added[i],
    ) by {
        assert((kept + added)[kept.len() + i] == added[i]);
        assert((kept + added).contains(added[i]));
        assert((kept + added).to_multiset().count(added[i]) > 0);
        assert(order::in_order(kept + added).to_multiset().count(added[i]) > 0);
    }
}

fn has_alias_named(s: &Vec<AliasEntry>, name: &String) -> (r: bool)
    ensures
        r == alias_named(s@, name@),
{
    let mut i: usize = 0;
    while i < s.len()
        invariant
            i <= s@.len(),
            forall|j: int| 0 <= j < i ==> s@[j].name@ != name@,
        decreases s@.len() - i,
    {
        if s[i].name == *name {
            return true;
        }
        i = i + 1;
    }
    false
}

/// Imports the chosen aliases of a backup: each replaces every active alias
/// of its name, gets the id `backup-{stamp}-{id}` (so importing a backup
/// twice cannot collide) and `imported_at` as its last change. The result
/// is in name order and must be a valid collection.
pub fn import_alias_backup(
    backup: Vec<AliasEntry>,
    current: Vec<AliasEntry>,
    selected_ids: &Vec<String>,
    imported_at: &str,
    stamp: u64,
) -> (r: Result<AliasImport, String>)
    ensures
        ({
            let chosen = chosen_aliases(backup@, selected_ids@);
            if selected_ids@.len() == 0 {
                r is Err && r->Err_0@ == "Select at least one alias to import."@
            } else if text::trim(imported_at@).len() == 0 {
                r is Err && r->Err_0@ == "Import timestamp is missing."@
            } else if chosen.len() != automation_store::distinct_ids(selected_ids@) {
                r is Err && r->Err_0@ == "Some selected aliases are no longer present in the backup."@
            } else {
                exists|renamed: Seq<AliasEntry>|
                    renamed.len() == chosen.len() && (forall|i: int|
                        0 <= i < chosen.len() ==> alias_relabeled(
                            chosen[i],
                            #[trigger] renamed[i],
                            stamp,
                            imported_at@,
                        )) && {
                        let merged = order::in_order(without_alias_names(current@, chosen) + renamed);
                        match alias_entry::alias_collection_error(merged) {
                            Some(e) => r is Err && r->Err_0@ == e,
                            None => r is Ok && r->Ok_0.aliases@ == merged && r->Ok_0.imported_count
                                == chosen.len() && r->Ok_0.replaced_count == count_alias_named(
                                current@,
                                chosen,
                            ),
                        }
                    }
            }
        }),
        r is Ok ==> all_kept(chosen_aliases(backup@, selected_ids@), r->Ok_0.aliases@),
{
    if selected_ids.len() == 0 {
        return Err(owned("Select at least one alias to import."));
    }
    if is_blank_str(imported_at) {
        return Err(owned("Import timestamp is missing."));
    }
    let distinct = count_distinct(selected_ids);
    let chosen = pick_chosen(backup, selected_ids);
    if chosen.len() != distinct {
        return Err(owned("Some selected aliases are no longer present in the backup."));
    }
    let ghost c0 = current@;
    let mut pending = current;
    let mut kept: Vec<AliasEntry> = Vec::new();
    let mut replaced: usize = 0;
    let m = pending.len();
    let mut i: usize = 0;
    while pending.len() > 0
        invariant
            m == c0.len(),
            i + pending@.len() == m,
            pending@ == c0.skip(i as int),
            kept@ == without_alias_names(c0.take(i as int), chosen@),
            replaced == count_alias_named(c0.take(i as int), chosen@),
            replaced <= i,
        decreases pending@.len(),
    {
        let ghost before = pending@;
        let a = pending.remove(0);
        assert(before[0] == c0[i as int]);
        assert(pending@ =~= c0.skip(i + 1));
        assert(c0.take(i + 1).drop_last() =~= c0.take(i as int));
        if has_alias_named(&chosen, &a.name) {
            replaced = replaced + 1;
        } else {
            kept.push(a);
        }
        i = i + 1;
    }
    assert(c0.take(m as int) =~= c0);
    let ghost sel = chosen@;
    let imported_count = chosen.len();
    let mut pending = chosen;
    let mut renamed: Vec<AliasEntry> = Vec::new();
    let mut i: usize = 0;
    while pending.len() > 0
        invariant
            imported_count == sel.len(),
            i + pending@.len() == imported_count,
            pending@ == sel.skip(i as int),
            renamed@.len() == i,
            forall|t: int|
                0 <= t < i ==> alias_relabeled(sel[t], #[trigger] renamed@[t], stamp, imported_at@),
        decreases pending@.len(),
    {
        let ghost before = pending@;
        let a = pending.remove(0);
        assert(before[0] == sel[i as int]);
        assert(pending@ =~= sel.skip(i + 1));
        let mut id: Vec<char> = Vec::new();
        push_str(&mut id, "backup-");
        push_decimal(&mut id, stamp);
        push_str(&mut id, "-");
        push_str(&mut id, a.id.as_str());
        assert(id@ =~= "backup-"@ + shell_alias::decimal(stamp as nat) + "-"@ + a.id@);
        renamed.push(
            AliasEntry {
                id: string_of(&id),
                name: a.name,
                path: a.path,
                action: a.action,
                custom_command: a.custom_command,
                command_preview: a.command_preview,
                favorite: a.favorite,
                created_at: a.created_at,
                updated_at: owned(imported_at),
            },
        );
        i = i + 1;
    }
    let ghost rn = renamed@;
    let ghost kp = kept@;
    let mut all = kept;
    all.append(&mut renamed);
    sort_in_order(&mut all);
    proof {
        lemma_added_are_stored(kp, rn);
        assert forall|t: int| 0 <= t < sel.len() implies exists|j: int|
            0 <= j < all@.len() && same_alias_content(#[trigger] sel[t], all@[j]) by {
            assert(all@.contains(rn[t]));
            let j = choose|j: int| 0 <= j < all@.len() && all@[j] == rn[t];
            assert(alias_relabeled(sel[t], rn[t], stamp, imported_at@));
            assert(same_alias_content(sel[t], all@[j]));
        }
        assert(all_kept(sel, all@));
    }
    match validate_alias_collection(all.as_slice()) {
        Err(e) => Err(e),
        Ok(()) => Ok(AliasImport { aliases: all, imported_count, replaced_count: replaced }),
    }
}

/// Whether another alias than the one being edited already has `name`.
pub open spec fn name_clash(aliases: Seq<AliasEntry>, name: Seq<char>, editing: Option<Seq<char>>) -> bool {
    exists|j: int|
        0 <= j < aliases.len() && aliases[j].name@ == name && match editing {
            Some(id) => aliases[j].id@ != id,
            None => true,
        }
}

/// Whether `e` carries what the alias form holds: the trimmed name and
/// path, the action, the trimmed custom command for a custom alias, the
/// command the action runs, and `timestamp` as its update time.
pub open spec fn form_fields(
    e: AliasEntry,
    name: Seq<char>,
    action: Seq<char>,
    path: Seq<char>,
    custom: Seq<char>,
    timestamp: Seq<char>,
) -> bool {
    &&& e.name@ == text::trim(name)
    &&& e.path@ == text::trim(path)
    &&& e.action@ == action
    &&& (if action == "custom"@ {
        e.custom_command is Some && e.custom_command->Some_0@ == text::trim(custom)
    } else {
        e.custom_command is None
    })
    &&& e.command_preview@ == crate::tui_platform::command_for(action, path, custom)
    &&& e.updated_at@ == timestamp
}

/// What saving the alias form stores, before the list is checked.
pub open spec fn form_saved(
    aliases: Seq<AliasEntry>,
    saved: Seq<AliasEntry>,
    saved_id: Seq<char>,
    editing: Option<Seq<char>>,
    name: Seq<char>,
    action: Seq<char>,
    path: Seq<char>,
    custom: Seq<char>,
    timestamp: Seq<char>,
    new_id: Seq<char>,
) -> bool {
    match editing {
        Some(id) => match alias_position(aliases, id) {
            Some(k) => {
                &&& saved.len() == aliases.len()
                &&& forall|i: int| 0 <= i < aliases.len() && i != k ==> saved[i] == aliases[i]
                &&& saved[k].id == aliases[k].id
                &&& saved[k].favorite == aliases[k].favorite
                &&& saved[k].created_at == aliases[k].created_at
                &&& form_fields(saved[k], name, action, path, custom, timestamp)
                &&& saved_id == id
            },
            None => false,
        },
        None => {
            &&& saved.len() == aliases.len() + 1
            &&& saved.take(aliases.len() as int) == aliases
            &&& saved.last().id@ == new_id
            &&& !saved.last().favorite
            &&& saved.last().created_at@ == timestamp
            &&& form_fields(saved.last(), name, action, path, custom, timestamp)
            &&& saved_id == new_id
        },
    }
}

/// What saving the alias form gives once the name is free and the edited
/// alias exists: the list that `form_saved` describes, refused with the
/// first problem of that list.
pub open spec fn form_outcome(
    aliases: Seq<AliasEntry>,
    editing: Option<Seq<char>>,
    name: Seq<char>,
    action: Seq<char>,
    path: Seq<char>,
    custom: Seq<char>,
    timestamp: Seq<char>,
    new_id: Seq<char>,
    r: Result<(Seq<AliasEntry>, Seq<char>), Seq<char>>,
) -> bool {
    exists|saved: Seq<AliasEntry>, saved_id: Seq<char>|
        form_saved(aliases, saved, saved_id, editing, name, action, path, custom, timestamp, new_id)
            && match alias_entry::alias_collection_error(saved) {
            Some(e) => r == Err::<(Seq<AliasEntry>, Seq<char>), Seq<char>>(e),
            None => r == Ok::<(Seq<AliasEntry>, Seq<char>), Seq<char>>((saved, saved_id)),
        }
}

/// Saves the alias form: a new alias (with id `new_id`) or the edited one
/// (`editing`, its id). Refused when another alias has the name, when the
/// edited alias is gone, or when the list would be invalid. Gives the
/// stored list and the id of the saved alias.
pub fn save_alias_form(
    aliases: Vec<AliasEntry>,
    editing: Option<String>,
    name: &str,
    action: &str,
    path: &str,
    custom: &str,
    timestamp: &str,
    new_id: String,
) -> (r: Result<(Vec<AliasEntry>, String), String>)
    ensures
        ({
            let n = text::trim(name@);
            let ed = match editing {
                Some(id) => Some(id@),
                None => None,
            };
            if name_clash(aliases@, n, ed) {
                r is Err && r->Err_0@ == "Alias \""@ + n + "\" already exists."@
            } else if editing is Some && alias_position(aliases@, ed->Some_0) is None {
                r is Err && r->Err_0@ == "This alias no longer exists."@
            } else {
                form_outcome(
                    aliases@,
                    ed,
                    name@,
                    action@,
                    path@,
                    custom@,
                    timestamp@,
                    new_id@,
                    match r {
                        Ok(v) => Ok((v.0@, v.1@)),
                        Err(e) => Err(e@),
                    },
                )
            }
        }),
{
    let ghost a0 = aliases@;
    let n = crate::text::trim_chars(&crate::text::chars_of(name));
    let n_str = string_of(&n);
    let ghost ed = match &editing {
        Some(id) => Some(id@),
        None => None::<Seq<char>>,
    };
    let mut i: usize = 0;
    while i < aliases.len()
        invariant
            i <= aliases@.len(),
            n_str@ == text::trim(name@),
            ed == (match editing {
                Some(id) => Some(id@),
                None => None::<Seq<char>>,
            }),
            forall|j: int|
                0 <= j < i ==> !(aliases@[j].name@ == n_str@ && match ed {
                    Some(id) => aliases@[j].id@ != id,
                    None => true,
                }),
        decreases aliases@.len() - i,
    {
        let other = match &editing {
            Some(id) => !str_eq(aliases[i].id.as_str(), id.as_str()),
            None => true,
        };
        if aliases[i].name == n_str && other {
            assert(aliases@[i as int].name@ == n_str@);
            return Err(concat3("Alias \"", n_str.as_str(), "\" already exists."));
        }
        i = i + 1;
    }
    assert(!name_clash(a0, n_str@, ed));
    let custom_command = if str_eq(action, "custom") {
        Some(string_of(&crate::text::trim_chars(&crate::text::chars_of(custom))))
    } else {
        None
    };
    let preview = crate::tui_platform::preview_command(action, path, custom);
    let trimmed_path = string_of(&crate::text::trim_chars(&crate::text::chars_of(path)));
    let mut all = aliases;
    let saved_id = match editing {
        Some(id) => {
            let k = match find_alias(&all, id.as_str()) {
                Some(k) => k,
                None => {
                    proof {
                        if exists|k: int| first_alias_with_id(all@, id@, k) {
                            let k = choose|k: int| first_alias_with_id(all@, id@, k);
                            assert(all@[k].id@ != id@);
                        }
                    }
                    return Err(owned("This alias no longer exists."));
                },
            };
            proof {
                let c = choose|c: int| first_alias_with_id(all@, id@, c);
                assert(first_alias_with_id(all@, id@, k as int));
                if c < k {
                    assert(all@[c].id@ != id@);
                }
                if k < c {
                    assert(all@[k as int].id@ != id@);
                }
            }
            let entry = AliasEntry {
                id: all[k].id.clone(),
                name: n_str.clone(),
                path: trimmed_path,
                action: owned(action),
                custom_command,
                command_preview: preview,
                favorite: all[k].favorite,
                created_at: all[k].created_at.clone(),
                updated_at: owned(timestamp),
            };
            all.set(k, entry);
            assert(alias_position(a0, id@) == Some(k as int));
            id
        },
        None => {
            all.push(
                AliasEntry {
                    id: new_id.clone(),
                    name: n_str.clone(),
                    path: trimmed_path,
                    action: owned(action),
                    custom_command,
                    command_preview: preview,
                    favorite: false,
                    created_at: owned(timestamp),
                    updated_at: owned(timestamp),
                },
            );
            assert(all@.take(a0.len() as int) =~= a0);
            new_id
        },
    };
    assert(form_saved(a0, all@, saved_id@, ed, name@, action@, path@, custom@, timestamp@, new_id@));
    let ghost sv = all@;
    let ghost sid = saved_id@;
    match validate_alias_collection(all.as_slice()) {
        Err(e) => {
            assert(form_outcome(aliases@, ed, name@, action@, path@, custom@, timestamp@, new_id@, Err(e@)));
            Err(e)
        },
        Ok(()) => {
            assert(form_outcome(aliases@, ed, name@, action@, path@, custom@, timestamp@, new_id@, Ok((sv, sid))));
            Ok((all, saved_id))
        },
    }
}

} // verus!
