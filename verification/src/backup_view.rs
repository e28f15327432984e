//! The backup dialog of the terminal edition: the entries a backup offers,
//! the keys of the dialog, what Enter asks for, and the message shown once
//! a backup was written or read.
//!
//! Whether the chosen path is a folder or an existing file, and reading or
//! writing the backup, is left to the caller.

use vstd::prelude::*;
use crate::text;
use crate::order;
use crate::shell_alias;
use crate::tui_forms;
use crate::tui_keys;
use crate::text::{chars_of, push_str, string_of, trim_chars};
use crate::order::sort_in_order;
use crate::message::{concat2, owned, str_eq};
use crate::alias_entry::AliasEntry;
use crate::automation::Automation;
use crate::list_view::{Ranked, ints};
use crate::text_input::{Key, KeyCode, TextInput};

verus! {

/// An entry of a backup as the dialog lists it.
pub struct BackupItem {
    pub id: String,
    pub label: String,
    pub detail: String,
}

/// An entry as the contracts see it: id, label, detail.
pub open spec fn item_view(i: BackupItem) -> (Seq<char>, Seq<char>, Seq<char>) {
    (i.id@, i.label@, i.detail@)
}

/// The entries as the contracts see them.
pub open spec fn item_views(v: Seq<BackupItem>) -> Seq<(Seq<char>, Seq<char>, Seq<char>)> {
    v.map_values(|i: BackupItem| item_view(i))
}

/// A star before the names of favorites.
pub open spec fn star(favorite: bool) -> Seq<char> {
    if favorite {
        "★ "@
    } else {
        ""@
    }
}

/// How an alias is listed: starred name and command.
pub open spec fn alias_item(a: AliasEntry) -> (Seq<char>, Seq<char>, Seq<char>) {
    (a.id@, star(a.favorite) + a.name@, a.command_preview@)
}

/// `n step` or `n steps`, and the group after a dot where there is one.
pub open spec fn steps_detail(n: nat, group: Seq<char>) -> Seq<char> {
    shell_alias::decimal(n) + " step"@ + (if n == 1 {
        ""@
    } else {
        "s"@
    }) + (if text::trim(group).len() == 0 {
        ""@
    } else {
        " · "@ + text::trim(group)
    })
}

/// How an automation is listed: starred name, number of steps and group.
pub open spec fn automation_item(a: Automation) -> (Seq<char>, Seq<char>, Seq<char>) {
    (a.id@, star(a.favorite) + a.name@, steps_detail(a.steps@.len(), a.group@))
}

/// Every position of a list of `n`.
pub open spec fn all_positions(n: int) -> Seq<int> {
    Seq::new(n as nat, |i: int| i)
}

/// The aliases sorted like the alias list, as the backup dialog lists them.
pub open spec fn alias_items(aliases: Seq<AliasEntry>) -> Seq<(Seq<char>, Seq<char>, Seq<char>)> {
    order::in_order(
        crate::list_view::alias_ranks(aliases, all_positions(aliases.len() as int)),
    ).map_values(|r: Ranked| alias_item(aliases[r.index as int]))
}

/// The automations sorted like the automation list, as the backup dialog
/// lists them.
pub open spec fn automation_items(autos: Seq<Automation>) -> Seq<(Seq<char>, Seq<char>, Seq<char>)> {
    order::in_order(crate::list_view::ranks(autos, all_positions(autos.len() as int))).map_values(
        |r: Ranked| automation_item(autos[r.index as int]),
    )
}

fn sorted_ranks(ranked: Vec<Ranked>, bound: usize) -> (r: Vec<Ranked>)
    requires
        forall|j: int| 0 <= j < ranked@.len() ==> #[trigger] ranked@[j].index < bound,
    ensures
        r@ == order::in_order(ranked@),
        forall|j: int| 0 <= j < r@.len() ==> #[trigger] r@[j].index < bound,
{
    let ghost before = ranked@;
    let mut ranked = ranked;
    sort_in_order(&mut ranked);
    proof {
        broadcast use vstd::seq_lib::group_to_multiset_ensures;

        order::lemma_in_order_multiset(before);
        assert forall|j: int| 0 <= j < ranked@.len() implies #[trigger] ranked@[j].index < bound by {
            let x = ranked@[j];
            assert(ranked@.contains(x));
            assert(ranked@.to_multiset().count(x) > 0);
            assert(before.to_multiset().count(x) > 0);
            assert(before.contains(x));
        }
    }
    ranked
}

fn push_star(v: &mut Vec<char>, favorite: bool)
    ensures
        final(v)@ == old(v)@ + star(favorite),
{
    if favorite {
        push_str(v, "★ ");
    } else {
        push_str(v, "");
    }
}

fn alias_backup_item(a: &AliasEntry) -> (r: BackupItem)
    ensures
        item_view(r) == alias_item(*a),
{
    let mut label: Vec<char> = Vec::new();
    push_star(&mut label, a.favorite);
    push_str(&mut label, a.name.as_str());
    BackupItem { id: owned(a.id.as_str()), label: string_of(&label), detail: owned(a.command_preview.as_str()) }
}

fn automation_backup_item(a: &Automation) -> (r: BackupItem)
    ensures
        item_view(r) == automation_item(*a),
{
    let mut label: Vec<char> = Vec::new();
    push_star(&mut label, a.favorite);
    push_str(&mut label, a.name.as_str());
    let n = a.steps.len();
    let mut detail: Vec<char> = Vec::new();
    shell_alias::push_decimal(&mut detail, n as u64);
    push_str(&mut detail, " step");
    if n == 1 {
        push_str(&mut detail, "");
    } else {
        push_str(&mut detail, "s");
    }
    let group = trim_chars(&chars_of(a.group.as_str()));
    if group.len() == 0 {
        push_str(&mut detail, "");
    } else {
        push_str(&mut detail, " · ");
        crate::text::push_all(&mut detail, &group);
    }
    BackupItem { id: owned(a.id.as_str()), label: string_of(&label), detail: string_of(&detail) }
}

/// The aliases as the backup dialog lists them.
pub fn alias_backup_items(aliases: &Vec<AliasEntry>) -> (r: Vec<BackupItem>)
    ensures
        item_views(r@) == alias_items(aliases@),
{
    let mut ranked: Vec<Ranked> = Vec::new();
    let mut i: usize = 0;
    while i < aliases.len()
        invariant
            i <= aliases.len(),
            ranked@ == crate::list_view::alias_ranks(aliases@, all_positions(i as int)),
            forall|j: int| 0 <= j < ranked@.len() ==> #[trigger] ranked@[j].index < aliases@.len(),
        decreases aliases.len() - i,
    {
        ranked.push(Ranked { index: i, favorite: aliases[i].favorite, name: aliases[i].name.clone() });
        assert(all_positions(i + 1) =~= all_positions(i as int).push(i as int));
        assert(ranked@ =~= crate::list_view::alias_ranks(aliases@, all_positions(i + 1)));
        i = i + 1;
    }
    let sorted = sorted_ranks(ranked, aliases.len());
    let mut r: Vec<BackupItem> = Vec::new();
    let mut k: usize = 0;
    while k < sorted.len()
        invariant
            k <= sorted.len(),
            forall|j: int| 0 <= j < sorted@.len() ==> #[trigger] sorted@[j].index < aliases@.len(),
            item_views(r@) == sorted@.take(k as int).map_values(
                |x: Ranked| alias_item(aliases@[x.index as int]),
            ),
        decreases sorted.len() - k,
    {
        let item = alias_backup_item(&aliases[sorted[k].index]);
        let ghost old_r = r@;
        r.push(item);
        assert(sorted@.take(k + 1) =~= sorted@.take(k as int).push(sorted@[k as int]));
        assert(item_views(r@) =~= item_views(old_r).push(item_view(item)));
        assert(sorted@.take(k + 1).map_values(|x: Ranked| alias_item(aliases@[x.index as int]))
            =~= sorted@.take(k as int).map_values(|x: Ranked| alias_item(aliases@[x.index as int])).push(
            alias_item(aliases@[sorted@[k as int].index as int]),
        ));
        k = k + 1;
    }
    assert(sorted@.take(sorted@.len() as int) =~= sorted@);
    r
}

/// The automations as the backup dialog lists them.
pub fn automation_backup_items(autos: &Vec<Automation>) -> (r: Vec<BackupItem>)
    ensures
        item_views(r@) == automation_items(autos@),
{
    let mut ranked: Vec<Ranked> = Vec::new();
    let mut i: usize = 0;
    while i < autos.len()
        invariant
            i <= autos.len(),
            ranked@ == crate::list_view::ranks(autos@, all_positions(i as int)),
            forall|j: int| 0 <= j < ranked@.len() ==> #[trigger] ranked@[j].index < autos@.len(),
        decreases autos.len() - i,
    {
        ranked.push(Ranked { index: i, favorite: autos[i].favorite, name: autos[i].name.clone() });
        assert(all_positions(i + 1) =~= all_positions(i as int).push(i as int));
        assert(ranked@ =~= crate::list_view::ranks(autos@, all_positions(i + 1)));
        i = i + 1;
    }
    let sorted = sorted_ranks(ranked, autos.len());
    let mut r: Vec<BackupItem> = Vec::new();
    let mut k: usize = 0;
    while k < sorted.len()
        invariant
            k <= sorted.len(),
            forall|j: int| 0 <= j < sorted@.len() ==> #[trigger] sorted@[j].index < autos@.len(),
            item_views(r@) == sorted@.take(k as int).map_values(
                |x: Ranked| automation_item(autos@[x.index as int]),
            ),
        decreases sorted.len() - k,
    {
        let item = automation_backup_item(&autos[sorted[k].index]);
        let ghost old_r = r@;
        r.push(item);
        assert(sorted@.take(k + 1) =~= sorted@.take(k as int).push(sorted@[k as int]));
        assert(item_views(r@) =~= item_views(old_r).push(item_view(item)));
        assert(sorted@.take(k + 1).map_values(|x: Ranked| automation_item(autos@[x.index as int]))
            =~= sorted@.take(k as int).map_values(
            |x: Ranked| automation_item(autos@[x.index as int]),
        ).push(automation_item(autos@[sorted@[k as int].index as int])));
        k = k + 1;
    }
    assert(sorted@.take(sorted@.len() as int) =~= sorted@);
    r
}


/// What a backup holds.
#[derive(Clone, Copy, PartialEq, Eq, Structural)]
pub enum BackupKind {
    Aliases,
    Automations,
}

/// Whether the dialog writes or reads a backup.
#[derive(Clone, Copy, PartialEq, Eq, Structural)]
pub enum BackupMode {
    Export,
    Import,
}

/// The backup dialog.
pub struct BackupForm {
    pub kind: BackupKind,
    pub mode: BackupMode,
    /// The path field.
    pub path: TextInput,
    /// The entries offered.
    pub items: Vec<BackupItem>,
    /// The ids ticked, each once.
    pub checked: Vec<String>,
    /// The entry under the cursor.
    pub selected: usize,
    /// Whether the list has the focus, rather than the path field.
    pub focus_list: bool,
    /// The backup file whose entries are listed.
    pub loaded_path: Option<String>,
    /// Whether Enter overwrites the existing file.
    pub overwrite_armed: bool,
    /// The error shown in the dialog.
    pub error: String,
    /// The path completions shown.
    pub completions: Vec<String>,
}

/// What the caller does after a key in the backup dialog.
pub enum BackupKey {
    /// Close the dialog.
    Close,
    /// Read the backup at the path and list its entries.
    Inspect,
    /// Go on as `submit_backup` says.
    Submit,
    /// Complete the path field.
    CompletePath,
    /// Keep the dialog open.
    Stay,
}

/// What the caller does after a key in the backup dialog, where `expanded`
/// is the path field with `~` expanded: Esc closes; Enter and Control+S
/// read a backup whose path changed (while the path field has the focus)
/// and otherwise go on; Tab in the path field completes it.
pub open spec fn backup_decision(form: BackupForm, key: Key, expanded: Seq<char>) -> BackupKey {
    let code = key.code;
    if code == KeyCode::Esc {
        BackupKey::Close
    } else if code == KeyCode::Enter || tui_forms::ctrl_char(key, 's') {
        let changed = form.mode == BackupMode::Import && !(form.loaded_path matches Some(p)
            && p@ == expanded);
        if changed && !form.focus_list {
            BackupKey::Inspect
        } else {
            BackupKey::Submit
        }
    } else if !form.focus_list && code == KeyCode::Tab {
        BackupKey::CompletePath
    } else {
        BackupKey::Stay
    }
}

/// The ids of the entries, in their order.
pub open spec fn item_ids(items: Seq<BackupItem>) -> Seq<Seq<char>> {
    items.map_values(|i: BackupItem| i.id@)
}

/// What a key that stays does to the dialog.
pub open spec fn backup_after(f: BackupForm, g: BackupForm, key: Key) -> bool {
    let code = key.code;
    let n = f.items@.len() as int;
    &&& g.kind == f.kind && g.mode == f.mode && g.loaded_path == f.loaded_path
    &&& item_views(g.items@) == item_views(f.items@)
    &&& if f.focus_list {
        &&& input_kept(f, g)
        &&& g.overwrite_armed == f.overwrite_armed && g.error == f.error
        &&& if code == KeyCode::Tab || ((code == KeyCode::Up || code == KeyCode::Char('k'))
            && f.selected == 0) {
            !g.focus_list && g.selected == f.selected && g.checked == f.checked
        } else if code == KeyCode::Char(' ') {
            &&& g.focus_list && g.selected == f.selected
            &&& if f.selected < n {
                tui_keys::ticked(g.checked@) == (if tui_keys::ticked(f.checked@).contains(
                    f.items@[f.selected as int].id@,
                ) {
                    tui_keys::ticked(f.checked@).remove(f.items@[f.selected as int].id@)
                } else {
                    tui_keys::ticked(f.checked@).insert(f.items@[f.selected as int].id@)
                })
            } else {
                g.checked == f.checked
            }
        } else if code == KeyCode::Char('a') {
            &&& g.focus_list && g.selected == f.selected
            &&& if f.checked@.len() == n {
                g.checked@.len() == 0
            } else {
                tui_keys::ticked(g.checked@) == item_ids(f.items@).to_set()
            }
        } else {
            &&& g.focus_list && g.checked == f.checked
            &&& g.selected == tui_keys::moved_index(f.selected as int, n, key)
        }
    } else {
        &&& g.checked == f.checked && g.selected == f.selected
        &&& if (code == KeyCode::Down || code == KeyCode::BackTab) && n > 0 {
            g.focus_list && input_kept(f, g) && g.overwrite_armed == f.overwrite_armed && g.error
                == f.error
        } else {
            &&& !g.focus_list
            &&& tui_forms::input_view(g.path) == tui_forms::input_after(f.path, key)
            &&& if tui_forms::input_uses(f.path, key) {
                !g.overwrite_armed && g.error@.len() == 0
            } else {
                g.overwrite_armed == f.overwrite_armed && g.error == f.error
            }
        }
    }
}

/// The path field is kept.
pub open spec fn input_kept(f: BackupForm, g: BackupForm) -> bool {
    tui_forms::input_view(g.path) == tui_forms::input_view(f.path)
}

/// Handles a key in the backup dialog; `expanded` is the path field with
/// `~` expanded.
pub fn backup_key(form: &mut BackupForm, key: &Key, expanded: &str) -> (r: BackupKey)
    requires
        old(form).path.well_formed(),
        tui_forms::texts(old(form).checked@).no_duplicates(),
    ensures
        r == backup_decision(*old(form), *key, expanded@),
        final(form).path.well_formed(),
        tui_forms::texts(final(form).checked@).no_duplicates(),
        final(form).completions@.len() == 0,
        r is Stay ==> backup_after(*old(form), *final(form), *key),
        r is Inspect ==> final(form).loaded_path is None && final(form).kind == old(form).kind
            && final(form).mode == old(form).mode && input_kept(*old(form), *final(form)),
        r is Submit || r is Close || r is CompletePath ==> final(form).loaded_path == old(
            form,
        ).loaded_path && final(form).kind == old(form).kind && final(form).mode == old(form).mode
            && input_kept(*old(form), *final(form)) && final(form).checked == old(form).checked
            && item_views(final(form).items@) == item_views(old(form).items@),
{
    form.completions = Vec::new();
    let code = key.code;
    if code == KeyCode::Esc {
        return BackupKey::Close;
    }
    if code == KeyCode::Enter || (key.ctrl && code == KeyCode::Char('s')) {
        let same = match &form.loaded_path {
            Some(p) => str_eq(p.as_str(), expanded),
            None => false,
        };
        let changed = form.mode == BackupMode::Import && !same;
        if changed && !form.focus_list {
            form.loaded_path = None;
            return BackupKey::Inspect;
        }
        return BackupKey::Submit;
    }
    if form.focus_list {
        if code == KeyCode::Tab || ((code == KeyCode::Up || code == KeyCode::Char('k'))
            && form.selected == 0) {
            form.focus_list = false;
        } else if code == KeyCode::Char(' ') {
            if form.selected < form.items.len() {
                let id = owned(form.items[form.selected].id.as_str());
                tui_keys::toggle_checked(&mut form.checked, id.as_str());
            }
        } else if code == KeyCode::Char('a') {
            let mut ids: Vec<String> = Vec::new();
            let mut i: usize = 0;
            while i < form.items.len()
                invariant
                    i <= form.items.len(),
                    tui_forms::texts(ids@) == item_ids(form.items@).take(i as int),
                decreases form.items.len() - i,
            {
                let ghost before = ids@;
                let id = owned(form.items[i].id.as_str());
                ids.push(id);
                assert(tui_forms::texts(ids@) =~= tui_forms::texts(before).push(
                    form.items@[i as int].id@,
                ));
                assert(item_ids(form.items@).take(i + 1) =~= item_ids(form.items@).take(
                    i as int,
                ).push(form.items@[i as int].id@));
                i = i + 1;
            }
            assert(item_ids(form.items@).take(form.items@.len() as int) =~= item_ids(form.items@));
            tui_keys::toggle_all_checked(&mut form.checked, &ids);
        } else {
            form.selected = tui_keys::move_index(form.selected, form.items.len(), key);
        }
        return BackupKey::Stay;
    }
    if code == KeyCode::Tab {
        return BackupKey::CompletePath;
    }
    if (code == KeyCode::Down || code == KeyCode::BackTab) && form.items.len() > 0 {
        form.focus_list = true;
        return BackupKey::Stay;
    }
    if form.path.handle_key(key) {
        form.overwrite_armed = false;
        form.error = String::new();
    }
    BackupKey::Stay
}

/// What Enter asks of the caller in the backup dialog.
pub enum BackupSubmit {
    /// Read the backup at the path first.
    Inspect,
    /// Keep the dialog open with the error it shows.
    Stay,
    /// Write these entries to the path.
    Export(Vec<String>),
    /// Read these entries from the backup.
    Import(Vec<String>),
}

/// `alias` or `automation`.
pub open spec fn kind_noun(kind: BackupKind) -> Seq<char> {
    if kind == BackupKind::Aliases {
        "alias"@
    } else {
        "automation"@
    }
}

/// The message when nothing is ticked.
pub open spec fn nothing_chosen(kind: BackupKind, mode: BackupMode) -> Seq<char> {
    "Select at least one "@ + kind_noun(kind) + " to "@ + (if mode == BackupMode::Export {
        "export"@
    } else {
        "import"@
    }) + "."@
}

/// The ids of the ticked entries, in the order of the list.
pub open spec fn chosen_ids(items: Seq<BackupItem>, checked: Seq<String>) -> Seq<Seq<char>> {
    item_ids(items).filter(|id: Seq<char>| tui_keys::ticked(checked).contains(id))
}

/// What Enter does in the backup dialog: an import first reads its backup;
/// nothing ticked, an export without a path, to a folder, or over an
/// existing file not yet confirmed keeps the dialog open with a message
/// (the first Enter on an existing file arms the overwrite); otherwise the
/// ticked entries are written or read.
pub open spec fn submit_decision(
    form: BackupForm,
    path_is_dir: bool,
    path_exists: bool,
) -> (Option<Seq<Seq<char>>>, Option<Seq<char>>, bool) {
    if form.mode == BackupMode::Import && form.loaded_path is None {
        (None, None, form.overwrite_armed)
    } else if form.checked@.len() == 0 {
        (None, Some(nothing_chosen(form.kind, form.mode)), form.overwrite_armed)
    } else if form.mode == BackupMode::Export && text::trim(form.path.value@).len() == 0 {
        (None, Some("Choose where to save the backup."@), form.overwrite_armed)
    } else if form.mode == BackupMode::Export && path_is_dir {
        (None, Some("That is a folder - add a file name like backup.json."@), form.overwrite_armed)
    } else if form.mode == BackupMode::Export && path_exists && !form.overwrite_armed {
        (None, Some("That file already exists. Press Enter again to overwrite it."@), true)
    } else {
        (Some(chosen_ids(form.items@, form.checked@)), None, form.overwrite_armed)
    }
}

fn error_text(kind: BackupKind, mode: BackupMode) -> (r: String)
    ensures
        r@ == nothing_chosen(kind, mode),
{
    let mut v: Vec<char> = Vec::new();
    push_str(&mut v, "Select at least one ");
    if kind == BackupKind::Aliases {
        push_str(&mut v, "alias");
    } else {
        push_str(&mut v, "automation");
    }
    push_str(&mut v, " to ");
    if mode == BackupMode::Export {
        push_str(&mut v, "export");
    } else {
        push_str(&mut v, "import");
    }
    push_str(&mut v, ".");
    string_of(&v)
}

fn is_ticked(checked: &Vec<String>, id: &str) -> (r: bool)
    ensures
        r == tui_keys::ticked(checked@).contains(id@),
{
    let mut i: usize = 0;
    while i < checked.len()
        invariant
            i <= checked.len(),
            forall|j: int| 0 <= j < i ==> tui_forms::texts(checked@)[j] != id@,
        decreases checked.len() - i,
    {
        if str_eq(checked[i].as_str(), id) {
            assert(tui_forms::texts(checked@)[i as int] == id@);
            return true;
        }
        i = i + 1;
    }
    false
}

/// What Enter does in the backup dialog, once the caller has told whether
/// the path names a folder or an existing file.
pub fn submit_backup(form: &mut BackupForm, path_is_dir: bool, path_exists: bool) -> (r:
    BackupSubmit)
    ensures
        ({
            let (ids, error, armed) = submit_decision(*old(form), path_is_dir, path_exists);
            &&& final(form).overwrite_armed == armed
            &&& match error {
                Some(e) => r is Stay && final(form).error@ == e,
                None => final(form).error == old(form).error && match ids {
                    Some(ids) => match r {
                        BackupSubmit::Export(v) => old(form).mode == BackupMode::Export
                            && tui_forms::texts(v@) == ids,
                        BackupSubmit::Import(v) => old(form).mode == BackupMode::Import
                            && tui_forms::texts(v@) == ids,
                        _ => false,
                    },
                    None => r is Inspect,
                },
            }
        }),
        final(form).kind == old(form).kind,
        final(form).mode == old(form).mode,
        final(form).loaded_path == old(form).loaded_path,
        final(form).checked == old(form).checked,
        final(form).selected == old(form).selected,
        final(form).focus_list == old(form).focus_list,
        input_kept(*old(form), *final(form)),
        final(form).path.well_formed() == old(form).path.well_formed(),
        item_views(final(form).items@) == item_views(old(form).items@),
{
    if form.mode == BackupMode::Import && form.loaded_path.is_none() {
        return BackupSubmit::Inspect;
    }
    if form.checked.len() == 0 {
        form.error = error_text(form.kind, form.mode);
        return BackupSubmit::Stay;
    }
    if form.mode == BackupMode::Export {
        let trimmed = trim_chars(&chars_of(form.path.value.as_str()));
        if trimmed.len() == 0 {
            form.error = owned("Choose where to save the backup.");
            return BackupSubmit::Stay;
        }
        if path_is_dir {
            form.error = owned("That is a folder - add a file name like backup.json.");
            return BackupSubmit::Stay;
        }
        if path_exists && !form.overwrite_armed {
            form.overwrite_armed = true;
            form.error = owned("That file already exists. Press Enter again to overwrite it.");
            return BackupSubmit::Stay;
        }
    }
    let ghost all = item_ids(form.items@);
    let ghost p = |id: Seq<char>| tui_keys::ticked(form.checked@).contains(id);
    let mut ids: Vec<String> = Vec::new();
    let mut i: usize = 0;
    assert(all.take(0).filter(p) =~= Seq::<Seq<char>>::empty()) by {
        reveal(Seq::filter);
    }
    while i < form.items.len()
        invariant
            i <= form.items.len(),
            all == item_ids(form.items@),
            p == (|id: Seq<char>| tui_keys::ticked(form.checked@).contains(id)),
            tui_forms::texts(ids@) == all.take(i as int).filter(p),
        decreases form.items.len() - i,
    {
        proof {
            assert(all.take(i + 1) =~= all.take(i as int).push(all[i as int]));
            all.take(i as int).lemma_filter_push(all[i as int], p);
        }
        let ghost before = ids@;
        if is_ticked(&form.checked, form.items[i].id.as_str()) {
            ids.push(owned(form.items[i].id.as_str()));
            assert(tui_forms::texts(ids@) =~= tui_forms::texts(before).push(all[i as int]));
        }
        i = i + 1;
    }
    assert(all.take(form.items@.len() as int) =~= all);
    if form.mode == BackupMode::Export {
        BackupSubmit::Export(ids)
    } else {
        BackupSubmit::Import(ids)
    }
}

/// `alias`/`aliases` or `automation`/`automations`, for a count.
pub open spec fn counted_noun(kind: BackupKind, n: nat) -> Seq<char> {
    kind_noun(kind) + if n == 1 {
        ""@
    } else if kind == BackupKind::Aliases {
        "es"@
    } else {
        "s"@
    }
}

fn push_counted_noun(v: &mut Vec<char>, kind: BackupKind, n: usize)
    ensures
        final(v)@ == old(v)@ + counted_noun(kind, n as nat),
{
    if kind == BackupKind::Aliases {
        push_str(v, "alias");
        if n == 1 {
            push_str(v, "");
        } else {
            push_str(v, "es");
        }
    } else {
        push_str(v, "automation");
        if n == 1 {
            push_str(v, "");
        } else {
            push_str(v, "s");
        }
    }
}

/// The message after an export: `{n} {entries} exported to {file}.`
pub fn export_notice(kind: BackupKind, count: usize, file: &str) -> (r: String)
    ensures
        r@ == shell_alias::decimal(count as nat) + " "@ + counted_noun(kind, count as nat)
            + " exported to "@ + file@ + "."@,
{
    let mut v: Vec<char> = Vec::new();
    shell_alias::push_decimal(&mut v, count as u64);
    push_str(&mut v, " ");
    push_counted_noun(&mut v, kind, count);
    push_str(&mut v, " exported to ");
    push_str(&mut v, file);
    push_str(&mut v, ".");
    string_of(&v)
}

/// The message after an import: `{n} {entries} imported.`, and how many
/// were replaced where some were.
pub fn import_notice(kind: BackupKind, imported: usize, replaced: usize) -> (r: String)
    ensures
        r@ == shell_alias::decimal(imported as nat) + " "@ + counted_noun(kind, imported as nat)
            + " imported."@ + (if replaced > 0 {
            " "@ + shell_alias::decimal(replaced as nat) + " replaced."@
        } else {
            ""@
        }),
{
    let mut v: Vec<char> = Vec::new();
    shell_alias::push_decimal(&mut v, imported as u64);
    push_str(&mut v, " ");
    push_counted_noun(&mut v, kind, imported);
    push_str(&mut v, " imported.");
    if replaced > 0 {
        push_str(&mut v, " ");
        shell_alias::push_decimal(&mut v, replaced as u64);
        push_str(&mut v, " replaced.");
    } else {
        push_str(&mut v, "");
    }
    string_of(&v)
}

/// The file a new backup is suggested under, for the local date `date`.
pub open spec fn default_backup_text(kind: BackupKind, date: Seq<char>) -> Seq<char> {
    match kind {
        BackupKind::Aliases => "~/easyalias-backup-"@ + date + ".json"@,
        BackupKind::Automations => "~/easyalias-automations-"@ + date + ".json"@,
    }
}

/// The path suggested for a new backup on the local date `date`
/// (`YYYY-MM-DD`).
pub fn default_backup_path(kind: BackupKind, date: &str) -> (r: String)
    ensures
        r@ == default_backup_text(kind, date@),
{
    match kind {
        BackupKind::Aliases => crate::message::concat3("~/easyalias-backup-", date, ".json"),
        BackupKind::Automations => crate::message::concat3("~/easyalias-automations-", date, ".json"),
    }
}

} // verus!
