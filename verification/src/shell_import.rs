//! Connecting EasyAlias to a shell startup file, and importing the aliases
//! already written there.
//!
//! The functions here take the startup file's text and the stored aliases as
//! they were read, and give back what to write; the files themselves are
//! read and written by the caller.

use vstd::prelude::*;
use std::collections::HashMap;
use crate::text;
use crate::order;
use crate::paths;
use crate::shell_alias;
use crate::automation_store;
use crate::text::{chars_of, is_blank_str, lines_chars, push_all, push_str, slice_chars, string_of, starts_with_chars, trim_chars, trim_start_chars, eq_chars};
use crate::message::{concat3, owned, str_eq};
use crate::alias_entry::AliasEntry;
use crate::shell_alias::{find_shell_aliases, push_decimal, replace_imported_alias_lines, ShellAliasCandidate};
use crate::order::{Ordered, sort_in_order, text_less};
use crate::paths::{aliases_file, config_file, display_home_path, join_path};

verus! {

/// The line that makes a shell load the generated aliases.
pub const SOURCE_LINE: &'static str = "source ~/.easyalias/aliases.sh";

/// The alias that opens EasyAlias from a terminal.
pub const APP_ALIAS_LINE: &'static str = "alias easya='setsid -f easyalias >/dev/null 2>&1'";

/// What the import marker file holds.
pub const IMPORT_MARKER_CONTENT: &'static str = "shell alias import prompt handled\n";

/// The shell EasyAlias connects to and its startup file.
#[derive(Clone, Debug)]
pub struct ShellSetup {
    pub name: String,
    pub config_file: String,
}

/// The last component of a path, ignoring slashes at its end.
pub open spec fn last_component(path: Seq<char>) -> Seq<char> {
    text::split_on(paths::trim_trailing_slashes(path), '/').last()
}

/// The last component of a path, ignoring slashes at its end.
fn file_name_of(path: &str) -> (r: Vec<char>)
    ensures
        r@ == last_component(path@),
{
    let s = chars_of(path);
    let mut n: usize = s.len();
    assert(s@.subrange(0, n as int) =~= s@);
    while n > 0 && s[n - 1] == '/'
        invariant
            n <= s@.len(),
            paths::trim_trailing_slashes(s@) == paths::trim_trailing_slashes(s@.subrange(0, n as int)),
        decreases n,
    {
        assert(s@.subrange(0, n as int).drop_last() =~= s@.subrange(0, n - 1));
        n = n - 1;
    }
    let t = slice_chars(&s, 0, n);
    assert(paths::trim_trailing_slashes(t@) == t@);
    let parts = text::split_chars(&t, '/');
    proof {
        text::lemma_split_on_nonempty(t@, '/');
    }
    let last = parts.len() - 1;
    let r = parts[last].clone();
    r
}

/// The shell setup for the login shell named by `$SHELL`: zsh with
/// `~/.zshrc` when its last path component is `zsh`, otherwise bash with
/// `~/.bashrc`, the most common interactive Linux shell.
pub fn shell_setup(shell: &str, home: &str) -> (r: ShellSetup)
    ensures
        last_component(shell@) == "zsh"@ ==> r.name@ == "zsh"@ && r.config_file@
            == paths::path_join(home@, ".zshrc"@),
        last_component(shell@) != "zsh"@ ==> r.name@ == "bash"@ && r.config_file@
            == paths::path_join(home@, ".bashrc"@),
{
    let name = file_name_of(shell);
    let zsh = chars_of("zsh");
    if eq_chars(&name, &zsh) {
        ShellSetup { name: owned("zsh"), config_file: join_path(home, ".zshrc") }
    } else {
        ShellSetup { name: owned("bash"), config_file: join_path(home, ".bashrc") }
    }
}

/// Whether some line of the text is the source line, surrounding whitespace
/// aside.
pub open spec fn has_source_line(content: Seq<char>) -> bool {
    exists|i: int|
        0 <= i < text::lines(content).len() && text::trim(#[trigger] text::lines(content)[i])
            == SOURCE_LINE@
}

/// Whether some line of the text, leading whitespace aside, starts defining
/// the app alias.
pub open spec fn has_app_alias(content: Seq<char>) -> bool {
    exists|i: int|
        0 <= i < text::lines(content).len() && text::starts_with(
            text::trim_start(#[trigger] text::lines(content)[i]),
            "alias easya="@,
        )
}

/// Whether the startup file already loads the generated aliases.
pub fn shell_source_present(content: &str) -> (r: bool)
    ensures
        r == has_source_line(content@),
{
    let s = chars_of(content);
    let ls = lines_chars(&s);
    let want = chars_of(SOURCE_LINE);
    let mut i: usize = 0;
    while i < ls.len()
        invariant
            i <= ls@.len(),
            ls@.map_values(|l: Vec<char>| l@) == text::lines(content@),
            want@ == SOURCE_LINE@,
            forall|j: int| 0 <= j < i ==> text::trim(#[trigger] text::lines(content@)[j]) != SOURCE_LINE@,
        decreases ls@.len() - i,
    {
        assert(ls@.map_values(|l: Vec<char>| l@)[i as int] == ls@[i as int]@);
        let t = trim_chars(&ls[i]);
        if eq_chars(&t, &want) {
            assert(text::trim(text::lines(content@)[i as int]) == SOURCE_LINE@);
            return true;
        }
        i = i + 1;
    }
    false
}

/// Whether the startup file already defines the app alias.
fn app_alias_present(content: &str) -> (r: bool)
    ensures
        r == has_app_alias(content@),
{
    let s = chars_of(content);
    let ls = lines_chars(&s);
    let want = chars_of("alias easya=");
    let mut i: usize = 0;
    while i < ls.len()
        invariant
            i <= ls@.len(),
            ls@.map_values(|l: Vec<char>| l@) == text::lines(content@),
            want@ == "alias easya="@,
            forall|j: int|
                0 <= j < i ==> !text::starts_with(
                    text::trim_start(#[trigger] text::lines(content@)[j]),
                    "alias easya="@,
                ),
        decreases ls@.len() - i,
    {
        assert(ls@.map_values(|l: Vec<char>| l@)[i as int] == ls@[i as int]@);
        let t = trim_start_chars(&ls[i]);
        if starts_with_chars(&t, &want) {
            assert(text::starts_with(text::trim_start(text::lines(content@)[i as int]), "alias easya="@));
            return true;
        }
        i = i + 1;
    }
    false
}

/// The startup file with the missing EasyAlias lines appended: the source
/// line and the app alias, each under a comment, after a line break that
/// ends the existing text. Everything already there is kept as it is.
pub open spec fn with_easyalias_lines(content: Seq<char>) -> Seq<char> {
    let ended = if content.len() > 0 && content.last() != '\n' {
        content + "\n"@
    } else {
        content
    };
    let sourced = if has_source_line(content) {
        ended
    } else {
        ended + "\n# EasyAlias aliases\n"@ + SOURCE_LINE@ + "\n"@
    };
    if has_app_alias(content) {
        sourced
    } else {
        sourced + "\n# EasyAlias app shortcut\n"@ + APP_ALIAS_LINE@ + "\n"@
    }
}

/// The new text of the startup file, or `None` when it already loads the
/// aliases and defines the app alias and is left untouched.
pub fn ensure_shell_source(content: &str) -> (r: Option<String>)
    ensures
        has_source_line(content@) && has_app_alias(content@) ==> r is None,
        !(has_source_line(content@) && has_app_alias(content@)) ==> r is Some && r->Some_0@
            == with_easyalias_lines(content@),
{
    let source_present = shell_source_present(content);
    let alias_present = app_alias_present(content);
    if source_present && alias_present {
        return None;
    }
    let mut v = chars_of(content);
    if v.len() > 0 && v[v.len() - 1] != '\n' {
        push_str(&mut v, "\n");
    }
    if !source_present {
        push_str(&mut v, "\n# EasyAlias aliases\n");
        push_str(&mut v, SOURCE_LINE);
        push_str(&mut v, "\n");
    }
    if !alias_present {
        push_str(&mut v, "\n# EasyAlias app shortcut\n");
        push_str(&mut v, APP_ALIAS_LINE);
        push_str(&mut v, "\n");
    }
    assert(v@ =~= with_easyalias_lines(content@));
    Some(string_of(&v))
}

/// What the app shows after every load and save: the aliases, where things
/// live (shortened below the home directory), and the shell connection.
#[derive(Clone, Debug)]
pub struct AppState {
    pub aliases: Vec<AliasEntry>,
    pub config_file: String,
    pub aliases_file: String,
    pub source_line: String,
    pub shell_name: String,
    pub shell_config_file: String,
    pub shell_source_present: bool,
    pub import_candidates: Vec<ShellAliasCandidate>,
}

/// Assembles the state shown after a load or save; `shell_content` is the
/// startup file's text (empty when it cannot be read).
pub fn app_state(
    aliases: Vec<AliasEntry>,
    home: &str,
    setup: &ShellSetup,
    shell_content: &str,
    import_candidates: Vec<ShellAliasCandidate>,
) -> (r: AppState)
    ensures
        r.aliases == aliases,
        r.config_file@ == paths::home_display(
            home@,
            paths::path_join(paths::app_dir_of(home@), "config.json"@),
        ),
        r.aliases_file@ == paths::home_display(
            home@,
            paths::path_join(paths::app_dir_of(home@), "aliases.sh"@),
        ),
        r.source_line@ == SOURCE_LINE@,
        r.shell_name@ == setup.name@,
        r.shell_config_file@ == paths::home_display(home@, setup.config_file@),
        r.shell_source_present == has_source_line(shell_content@),
        r.import_candidates == import_candidates,
{
    let config = config_file(home);
    let generated = aliases_file(home);
    AppState {
        aliases,
        config_file: display_home_path(home, config.as_str()),
        aliases_file: display_home_path(home, generated.as_str()),
        source_line: owned(SOURCE_LINE),
        shell_name: owned(setup.name.as_str()),
        shell_config_file: display_home_path(home, setup.config_file.as_str()),
        shell_source_present: shell_source_present(shell_content),
        import_candidates,
    }
}

/// Whether one of the aliases carries the given name.
pub open spec fn alias_name_taken(aliases: Seq<AliasEntry>, name: Seq<char>) -> bool {
    exists|j: int| 0 <= j < aliases.len() && aliases[j].name@ == name
}

/// Whether one of the aliases carries the given name.
pub(crate) fn has_alias_name(aliases: &Vec<AliasEntry>, name: &String) -> (r: bool)
    ensures
        r == alias_name_taken(aliases@, name@),
{
    let mut i: usize = 0;
    while i < aliases.len()
        invariant
            i <= aliases@.len(),
            forall|j: int| 0 <= j < i ==> aliases@[j].name@ != name@,
        decreases aliases@.len() - i,
    {
        if aliases[i].name == *name {
            return true;
        }
        i = i + 1;
    }
    false
}

/// An importable alias of a startup file: (line number, name, command).
pub type Found = (int, Seq<char>, Seq<char>);

/// The startup file's aliases whose name is not stored yet.
pub open spec fn new_entries(found: Seq<Found>, aliases: Seq<AliasEntry>) -> Seq<Found>
    decreases found.len(),
{
    if found.len() == 0 {
        Seq::empty()
    } else {
        let prev = new_entries(found.drop_last(), aliases);
        if alias_name_taken(aliases, found.last().1) {
            prev
        } else {
            prev.push(found.last())
        }
    }
}

/// The importable aliases of a startup file's text.
pub open spec fn found_in(content: Seq<char>) -> Seq<Found> {
    shell_alias::shell_aliases_of(text::lines(content))
}

/// The state that offers the startup file's aliases for import: those whose
/// name is not stored yet. `shell_content` is the startup file's text.
pub fn scan_shell_import(
    aliases: Vec<AliasEntry>,
    home: &str,
    setup: &ShellSetup,
    shell_content: &str,
) -> (r: AppState)
    ensures
        r.aliases == aliases,
        r.shell_source_present == has_source_line(shell_content@),
        r.shell_config_file@ == paths::home_display(home@, setup.config_file@),
        r.import_candidates@.map_values(|c: ShellAliasCandidate| c.spec_entry()) == new_entries(
            found_in(shell_content@),
            aliases@,
        ),
{
    let found = find_shell_aliases(shell_content);
    let ghost f0 = found@;
    let ghost e0 = f0.map_values(|c: ShellAliasCandidate| c.spec_entry());
    let mut pending = found;
    let mut kept: Vec<ShellAliasCandidate> = Vec::new();
    let n = pending.len();
    let mut i: usize = 0;
    while pending.len() > 0
        invariant
            n == f0.len(),
            e0 == f0.map_values(|c: ShellAliasCandidate| c.spec_entry()),
            i + pending@.len() == n,
            pending@ == f0.skip(i as int),
            kept@.map_values(|c: ShellAliasCandidate| c.spec_entry()) == new_entries(
                e0.take(i as int),
                aliases@,
            ),
        decreases pending@.len(),
    {
        let ghost before = pending@;
        let ghost kb = kept@;
        let c = pending.remove(0);
        assert(before[0] == f0[i as int]);
        assert(pending@ =~= f0.skip(i + 1));
        assert(e0.take(i + 1).drop_last() =~= e0.take(i as int));
        assert(e0.take(i + 1).last() == c.spec_entry());
        if !has_alias_name(&aliases, &c.name) {
            kept.push(c);
            assert(kept@.map_values(|c: ShellAliasCandidate| c.spec_entry()) =~= kb.map_values(
                |c: ShellAliasCandidate| c.spec_entry(),
            ).push(c.spec_entry()));
        }
        i = i + 1;
    }
    assert(e0.take(n as int) =~= e0);
    app_state(aliases, home, setup, shell_content, kept)
}

/// The state after the import offer was declined: no candidates.
pub fn dismiss_shell_import(
    aliases: Vec<AliasEntry>,
    home: &str,
    setup: &ShellSetup,
    shell_content: &str,
) -> (r: AppState)
    ensures
        r.aliases == aliases,
        r.shell_source_present == has_source_line(shell_content@),
        r.shell_config_file@ == paths::home_display(home@, setup.config_file@),
        r.import_candidates@.len() == 0,
{
    app_state(aliases, home, setup, shell_content, Vec::new())
}

/// Aliases are stored in name order.
impl Ordered for AliasEntry {
    open spec fn goes_before(&self, other: &Self) -> bool {
        order::text_before(self.name@, other.name@)
    }

    fn before(&self, other: &Self) -> (r: bool) {
        let a = chars_of(self.name.as_str());
        let b = chars_of(other.name.as_str());
        text_less(&a, &b)
    }

    proof fn lemma_asymmetric(a: Self, b: Self) {
        order::lemma_text_before_asymmetric(a.name@, b.name@);
    }

    proof fn lemma_negatively_transitive(a: Self, b: Self, c: Self) {
        order::lemma_text_before_negatively_transitive(a.name@, b.name@, c.name@);
    }
}

/// The found aliases whose line id was chosen, in file order.
pub open spec fn chosen_lines(found: Seq<Found>, ids: Seq<String>) -> Seq<Found>
    decreases found.len(),
{
    if found.len() == 0 {
        Seq::empty()
    } else {
        let prev = chosen_lines(found.drop_last(), ids);
        if automation_store::id_chosen(ids, shell_alias::line_id(found.last().0 as nat)) {
            prev.push(found.last())
        } else {
            prev
        }
    }
}

/// Whether the chosen alias at `k` would duplicate a stored name or an
/// earlier chosen one.
pub open spec fn duplicates_at(aliases: Seq<AliasEntry>, chosen: Seq<Found>, k: int) -> bool {
    alias_name_taken(aliases, chosen[k].1) || exists|j: int| 0 <= j < k && chosen[j].1 == chosen[k].1
}

/// Whether `k` is the first chosen alias that duplicates a name.
pub open spec fn first_duplicate_at(aliases: Seq<AliasEntry>, chosen: Seq<Found>, k: int) -> bool {
    0 <= k < chosen.len() && duplicates_at(aliases, chosen, k) && forall|j: int|
        0 <= j < k ==> !duplicates_at(aliases, chosen, j)
}

/// The first chosen alias that duplicates a name.
pub open spec fn first_duplicate(aliases: Seq<AliasEntry>, chosen: Seq<Found>) -> Option<int> {
    if exists|k: int| first_duplicate_at(aliases, chosen, k) {
        Some(choose|k: int| first_duplicate_at(aliases, chosen, k))
    } else {
        None
    }
}

proof fn lemma_first_duplicate(aliases: Seq<AliasEntry>, chosen: Seq<Found>, k: int)
    requires
        first_duplicate_at(aliases, chosen, k),
    ensures
        first_duplicate(aliases, chosen) == Some(k),
{
    let c = choose|k: int| first_duplicate_at(aliases, chosen, k);
    assert(first_duplicate_at(aliases, chosen, c));
    if c < k {
        assert(!duplicates_at(aliases, chosen, c));
    }
    if k < c {
        assert(!duplicates_at(aliases, chosen, k));
    }
}

/// The stored alias an imported line becomes: a custom command named after
/// the line, with id `imported-{import id}-{line}`.
pub open spec fn imported_alias(found: Found, e: AliasEntry, import_id: u64, timestamp: Seq<char>) -> bool {
    &&& e.id@ == "imported-"@ + shell_alias::decimal(import_id as nat) + "-"@ + shell_alias::decimal(
        found.0 as nat,
    )
    &&& e.name@ == found.1
    &&& e.path@.len() == 0
    &&& e.action@ == "custom"@
    &&& e.custom_command is Some
    &&& e.custom_command->Some_0@ == found.2
    &&& e.command_preview@ == found.2
    &&& !e.favorite
    &&& e.created_at@ == timestamp
    &&& e.updated_at@ == timestamp
}

/// The chosen lines and the names they are replaced by.
pub open spec fn line_names(chosen: Seq<Found>) -> Map<usize, Seq<char>>
    decreases chosen.len(),
{
    if chosen.len() == 0 {
        Map::empty()
    } else {
        line_names(chosen.drop_last()).insert(chosen.last().0 as usize, chosen.last().1)
    }
}

/// What an import writes: the stored aliases and the startup file's new text.
pub struct ShellImportPlan {
    pub aliases: Vec<AliasEntry>,
    pub shell_content: String,
    pub imported_count: usize,
}

/// The message when the chosen aliases no longer match the startup file.
pub open spec fn changed_message(shell_file: Seq<char>) -> Seq<char> {
    "Some aliases changed in "@ + shell_file + ". Reopen EasyAlias and try again."@
}

fn chosen_found(found: Vec<ShellAliasCandidate>, ids: &Vec<String>) -> (r: Vec<ShellAliasCandidate>)
    requires
        forall|i: int|
            0 <= i < found@.len() ==> (#[trigger] found@[i]).id@ == shell_alias::line_id(
                found@[i].line_number as nat,
            ),
    ensures
        r@.map_values(|c: ShellAliasCandidate| c.spec_entry()) == chosen_lines(
            found@.map_values(|c: ShellAliasCandidate| c.spec_entry()),
            ids@,
        ),
{
    let ghost f0 = found@;
    let ghost e0 = f0.map_values(|c: ShellAliasCandidate| c.spec_entry());
    let mut pending = found;
    let mut kept: Vec<ShellAliasCandidate> = Vec::new();
    let n = pending.len();
    let mut i: usize = 0;
    while pending.len() > 0
        invariant
            n == f0.len(),
            e0 == f0.map_values(|c: ShellAliasCandidate| c.spec_entry()),
            forall|i: int|
                0 <= i < f0.len() ==> (#[trigger] f0[i]).id@ == shell_alias::line_id(
                    f0[i].line_number as nat,
                ),
            i + pending@.len() == n,
            pending@ == f0.skip(i as int),
            kept@.map_values(|c: ShellAliasCandidate| c.spec_entry()) == chosen_lines(
                e0.take(i as int),
                ids@,
            ),
        decreases pending@.len(),
    {
        let ghost before = pending@;
        let ghost kb = kept@;
        let c = pending.remove(0);
        assert(before[0] == f0[i as int]);
        assert(pending@ =~= f0.skip(i + 1));
        assert(e0.take(i + 1).drop_last() =~= e0.take(i as int));
        assert(e0.take(i + 1).last() == c.spec_entry());
        assert(c.id@ == shell_alias::line_id(c.line_number as nat));
        let mut wanted = false;
        let mut j: usize = 0;
        while j < ids.len()
            invariant
                j <= ids@.len(),
                wanted == exists|t: int| 0 <= t < j && ids@[t]@ == c.id@,
            decreases ids@.len() - j,
        {
            if str_eq(ids[j].as_str(), c.id.as_str()) {
                wanted = true;
            }
            j = j + 1;
        }
        if wanted {
            kept.push(c);
            assert(kept@.map_values(|c: ShellAliasCandidate| c.spec_entry()) =~= kb.map_values(
                |c: ShellAliasCandidate| c.spec_entry(),
            ).push(c.spec_entry()));
        }
        i = i + 1;
    }
    assert(e0.take(n as int) =~= e0);
    kept
}

fn import_entry(c: &ShellAliasCandidate, import_id: u64, timestamp: &str) -> (r: AliasEntry)
    ensures
        imported_alias(c.spec_entry(), r, import_id, timestamp@),
{
    let mut id: Vec<char> = Vec::new();
    push_str(&mut id, "imported-");
    push_decimal(&mut id, import_id);
    push_str(&mut id, "-");
    push_decimal(&mut id, c.line_number as u64);
    assert(id@ =~= "imported-"@ + shell_alias::decimal(import_id as nat) + "-"@ + shell_alias::decimal(
        c.line_number as nat,
    ));
    AliasEntry {
        id: string_of(&id),
        name: owned(c.name.as_str()),
        path: String::new(),
        action: owned("custom"),
        custom_command: Some(owned(c.command.as_str())),
        command_preview: owned(c.command.as_str()),
        favorite: false,
        created_at: owned(timestamp),
        updated_at: owned(timestamp),
    }
}

/// Imports the chosen aliases of the startup file `content` (after the
/// source lines were ensured). Refused when nothing is chosen, the
/// timestamp is blank, a chosen line is gone (`shell_file` names the file
/// in the message), or a name would exist twice. Otherwise every chosen
/// alias is stored (in name order) and its line in the startup file is
/// replaced by a marker comment; `import_id` (the import's Unix time) keeps
/// the new ids unique.
pub fn import_shell_aliases(
    content: &str,
    aliases: Vec<AliasEntry>,
    selected_ids: &Vec<String>,
    timestamp: &str,
    import_id: u64,
    shell_file: &str,
) -> (r: Result<ShellImportPlan, String>)
    ensures
        ({
            let chosen = chosen_lines(found_in(content@), selected_ids@);
            if selected_ids@.len() == 0 {
                r is Err && r->Err_0@ == "Select at least one alias to import."@
            } else if text::trim(timestamp@).len() == 0 {
                r is Err && r->Err_0@ == "Import timestamp is missing."@
            } else if chosen.len() != automation_store::distinct_ids(selected_ids@) {
                r is Err && r->Err_0@ == changed_message(shell_file@)
            } else {
                match first_duplicate(aliases@, chosen) {
                    Some(k) => r is Err && r->Err_0@ == "Alias \""@ + chosen[k].1
                        + "\" already exists."@,
                    None => r is Ok && r->Ok_0.imported_count == chosen.len()
                        && r->Ok_0.shell_content@ == text::join(
                        shell_alias::replace_selected(
                            text::split_on(content@, '\n'),
                            line_names(chosen),
                        ),
                        "\n"@,
                    ) && exists|added: Seq<AliasEntry>|
                        added.len() == chosen.len() && (forall|i: int|
                            0 <= i < chosen.len() ==> imported_alias(
                                chosen[i],
                                #[trigger] added[i],
                                import_id,
                                timestamp@,
                            )) && r->Ok_0.aliases@ == order::in_order(aliases@ + added),
                }
            }
        }),
{
    if selected_ids.len() == 0 {
        return Err(owned("Select at least one alias to import."));
    }
    if is_blank_str(timestamp) {
        return Err(owned("Import timestamp is missing."));
    }
    let ghost ids = selected_ids@;
    let mut distinct: usize = 0;
    let mut i: usize = 0;
    while i < selected_ids.len()
        invariant
            i <= ids.len(),
            ids == selected_ids@,
            distinct == automation_store::distinct_ids(ids.take(i as int)),
            distinct <= i,
        decreases ids.len() - i,
    {
        assert(ids.take(i + 1).drop_last() =~= ids.take(i as int));
        let mut seen = false;
        let mut j: usize = 0;
        while j < i
            invariant
                j <= i < ids.len(),
                ids == selected_ids@,
                seen == exists|t: int| 0 <= t < j && ids[t]@ == ids[i as int]@,
            decreases i - j,
        {
            if str_eq(selected_ids[j].as_str(), selected_ids[i].as_str()) {
                seen = true;
            }
            j = j + 1;
        }
        assert(seen == automation_store::id_chosen(ids.take(i as int), ids[i as int]@)) by {
            if seen {
                let t = choose|t: int| 0 <= t < i && ids[t]@ == ids[i as int]@;
                assert(ids.take(i as int)[t] == ids[t]);
            }
            if automation_store::id_chosen(ids.take(i as int), ids[i as int]@) {
                let t = choose|t: int| 0 <= t < i && ids.take(i as int)[t]@ == ids[i as int]@;
                assert(ids.take(i as int)[t] == ids[t]);
            }
        }
        assert(ids.take(i + 1).last() == ids[i as int]);
        if !seen {
            distinct = distinct + 1;
        }
        i = i + 1;
    }
    assert(ids.take(ids.len() as int) =~= ids);
    let found = find_shell_aliases(content);
    let chosen = chosen_found(found, selected_ids);
    let ghost ch = chosen@.map_values(|c: ShellAliasCandidate| c.spec_entry());
    if chosen.len() != distinct {
        return Err(concat3("Some aliases changed in ", shell_file, ". Reopen EasyAlias and try again."));
    }
    let mut k: usize = 0;
    while k < chosen.len()
        invariant
            k <= chosen@.len(),
            ch == chosen@.map_values(|c: ShellAliasCandidate| c.spec_entry()),
            ch == chosen_lines(found_in(content@), selected_ids@),
            ch.len() == automation_store::distinct_ids(selected_ids@),
            selected_ids@.len() > 0,
            text::trim(timestamp@).len() > 0,
            forall|j: int| 0 <= j < k ==> !duplicates_at(aliases@, ch, j),
        decreases chosen@.len() - k,
    {
        assert(ch[k as int].1 == chosen@[k as int].name@);
        let mut dup = has_alias_name(&aliases, &chosen[k].name);
        let mut j: usize = 0;
        while j < k
            invariant
                j <= k < chosen@.len(),
                ch == chosen@.map_values(|c: ShellAliasCandidate| c.spec_entry()),
                dup == (alias_name_taken(aliases@, ch[k as int].1) || exists|t: int|
                    0 <= t < j && ch[t].1 == ch[k as int].1),
            decreases k - j,
        {
            assert(ch[j as int].1 == chosen@[j as int].name@);
            assert(ch[k as int].1 == chosen@[k as int].name@);
            if chosen[j].name == chosen[k].name {
                dup = true;
            }
            j = j + 1;
        }
        if dup {
            proof {
                lemma_first_duplicate(aliases@, ch, k as int);
            }
            return Err(concat3("Alias \"", chosen[k].name.as_str(), "\" already exists."));
        }
        k = k + 1;
    }
    assert(first_duplicate(aliases@, ch) is None) by {
        if exists|k: int| first_duplicate_at(aliases@, ch, k) {
            let c = choose|k: int| first_duplicate_at(aliases@, ch, k);
            assert(!duplicates_at(aliases@, ch, c));
        }
    }
    let mut added: Vec<AliasEntry> = Vec::new();
    let mut lines: HashMap<usize, &str> = HashMap::new();
    let mut i: usize = 0;
    while i < chosen.len()
        invariant
            i <= chosen@.len(),
            ch == chosen@.map_values(|c: ShellAliasCandidate| c.spec_entry()),
            added@.len() == i,
            forall|t: int|
                0 <= t < i ==> imported_alias(ch[t], #[trigger] added@[t], import_id, timestamp@),
            lines@.map_values(|name: &str| name@) == line_names(ch.take(i as int)),
        decreases chosen@.len() - i,
    {
        broadcast use vstd::std_specs::hash::group_hash_axioms;

        let e = import_entry(&chosen[i], import_id, timestamp);
        added.push(e);
        let ghost before = lines@;
        lines.insert(chosen[i].line_number, chosen[i].name.as_str());
        assert(ch.take(i + 1).drop_last() =~= ch.take(i as int));
        assert(lines@.map_values(|name: &str| name@) =~= before.map_values(|name: &str| name@).insert(
            chosen@[i as int].line_number,
            chosen@[i as int].name@,
        ));
        i = i + 1;
    }
    assert(ch.take(ch.len() as int) =~= ch);
    let next = replace_imported_alias_lines(content, &lines);
    let imported_count = chosen.len();
    let ghost ad = added@;
    let mut all = aliases;
    all.append(&mut added);
    sort_in_order(&mut all);
    Ok(ShellImportPlan { aliases: all, shell_content: next, imported_count })
}

/// The name of the `k`-th candidate copy of a startup file made at `stamp`:
/// `{file}.easyalias-backup-{stamp}`, then with `-{k}` added.
pub open spec fn backup_name(file: Seq<char>, stamp: u64, k: nat) -> Seq<char> {
    let base = file + ".easyalias-backup-"@ + shell_alias::decimal(stamp as nat);
    if k == 0 {
        base
    } else {
        base + "-"@ + shell_alias::decimal(k)
    }
}

/// The file name a copy is named after: the startup file's own name, or
/// `.shellrc` when its path has none.
pub open spec fn backup_base(config_file: Seq<char>) -> Seq<char> {
    if last_component(config_file).len() == 0 {
        ".shellrc"@
    } else {
        last_component(config_file)
    }
}

/// Whether a path is among the existing ones.
pub open spec fn path_taken(existing: Seq<String>, path: Seq<char>) -> bool {
    exists|i: int| 0 <= i < existing.len() && existing[i]@ == path
}

/// The `k`-th candidate path of a copy in the home directory.
pub open spec fn backup_candidate(home: Seq<char>, config_file: Seq<char>, stamp: u64, k: nat) -> Seq<
    char,
> {
    paths::path_join(home, backup_name(backup_base(config_file), stamp, k))
}

/// Where to copy the startup file before changing it: the first of a
/// thousand candidate paths in the home directory that is not among the
/// `existing` paths.
pub fn next_shell_backup_file(home: &str, config_file: &str, stamp: u64, existing: &Vec<String>) -> (r:
    Result<String, String>)
    ensures
        match r {
            Ok(p) => exists|k: nat|
                k < 1000 && p@ == backup_candidate(home@, config_file@, stamp, k) && !path_taken(
                    existing@,
                    p@,
                ) && forall|j: nat|
                    j < k ==> path_taken(
                        existing@,
                        #[trigger] backup_candidate(home@, config_file@, stamp, j),
                    ),
            Err(e) => e@ == "A unique shell configuration backup name could not be created."@
                && forall|j: nat|
                j < 1000 ==> path_taken(
                    existing@,
                    #[trigger] backup_candidate(home@, config_file@, stamp, j),
                ),
        },
{
    let name = file_name_of(config_file);
    let base = if name.len() == 0 {
        chars_of(".shellrc")
    } else {
        name
    };
    let mut k: u64 = 0;
    while k < 1000
        invariant
            k <= 1000,
            base@ == backup_base(config_file@),
            forall|j: nat|
                j < k ==> path_taken(existing@, #[trigger] backup_candidate(home@, config_file@, stamp, j)),
        decreases 1000 - k,
    {
        let mut v = base.clone();
        push_str(&mut v, ".easyalias-backup-");
        push_decimal(&mut v, stamp);
        if k > 0 {
            push_str(&mut v, "-");
            push_decimal(&mut v, k);
        }
        assert(v@ =~= backup_name(base@, stamp, k as nat));
        let file = string_of(&v);
        let candidate = join_path(home, file.as_str());
        let mut taken = false;
        let mut i: usize = 0;
        while i < existing.len()
            invariant
                i <= existing@.len(),
                taken == exists|t: int| 0 <= t < i && existing@[t]@ == candidate@,
            decreases existing@.len() - i,
        {
            if existing[i] == candidate {
                taken = true;
            }
            i = i + 1;
        }
        if !taken {
            let ghost kk = k as nat;
            assert(candidate@ == backup_candidate(home@, config_file@, stamp, kk));
            assert(!path_taken(existing@, candidate@));
            assert(kk < 1000 && candidate@ == backup_candidate(home@, config_file@, stamp, kk) && !path_taken(
                existing@,
                candidate@,
            ) && forall|j: nat|
                j < kk ==> path_taken(
                    existing@,
                    #[trigger] backup_candidate(home@, config_file@, stamp, j),
                ));
            return Ok(candidate);
        }
        assert(path_taken(existing@, backup_candidate(home@, config_file@, stamp, k as nat)));
        k = k + 1;
    }
    Err(owned("A unique shell configuration backup name could not be created."))
}


/// A text without a line break.
spec fn no_newline(t: Seq<char>) -> bool
    decreases t.len(),
{
    t.len() == 0 || (t.last() != '\n' && no_newline(t.drop_last()))
}

proof fn lemma_split_concat(s: Seq<char>, t: Seq<char>)
    ensures
        text::split_on(s + seq!['\n'] + t, '\n') == text::split_on(s, '\n') + text::split_on(t, '\n'),
    decreases t.len(),
{
    let u = s + seq!['\n'] + t;
    if t.len() == 0 {
        assert(u.drop_last() =~= s);
        assert(text::split_on(u, '\n') =~= text::split_on(s, '\n') + text::split_on(t, '\n'));
    } else {
        let t0 = t.drop_last();
        lemma_split_concat(s, t0);
        text::lemma_split_on_nonempty(t0, '\n');
        text::lemma_split_on_nonempty(s, '\n');
        assert(u.drop_last() =~= s + seq!['\n'] + t0);
        assert(u.last() == t.last());
        assert(text::split_on(u, '\n') =~= text::split_on(s, '\n') + text::split_on(t, '\n'));
    }
}

proof fn lemma_split_single(t: Seq<char>)
    requires
        no_newline(t),
    ensures
        text::split_on(t, '\n') == seq![t],
    decreases t.len(),
{
    if t.len() > 0 {
        assert(t.last() != '\n');
        assert(no_newline(t.drop_last()));
        lemma_split_single(t.drop_last());
        assert(t.drop_last().push(t.last()) =~= t);
        let prev = text::split_on(t.drop_last(), '\n');
        assert(prev == seq![t.drop_last()]);
        assert(text::split_on(t, '\n') == prev.update(0, prev.last().push(t.last())));
        assert(text::split_on(t, '\n') =~= seq![t]);
    } else {
        assert(t =~= Seq::<char>::empty());
        assert(text::split_on(t, '\n') =~= seq![t]);
    }
}

/// The lines of two texts that each end with a line break, one after the
/// other, are the lines of the first and then those of the second.
proof fn lemma_lines_concat(a: Seq<char>, b: Seq<char>)
    requires
        a.len() > 0 && a.last() == '\n',
        b.len() > 0 && b.last() == '\n',
    ensures
        text::lines(a + b) == text::lines(a) + text::lines(b),
{
    assert((a + b).drop_last() =~= a.drop_last() + seq!['\n'] + b.drop_last());
    lemma_split_concat(a.drop_last(), b.drop_last());
    assert(text::lines(a + b) =~= text::lines(a) + text::lines(b));
}

/// The last line of `w`, a line break, `t` and a line break is `t` (without
/// a carriage return).
proof fn lemma_last_line(w: Seq<char>, t: Seq<char>)
    requires
        no_newline(t),
    ensures
        text::lines(w + seq!['\n'] + t + seq!['\n']).len() > 0,
        text::lines(w + seq!['\n'] + t + seq!['\n']).last() == text::strip_cr(t),
{
    let x = w + seq!['\n'] + t + seq!['\n'];
    assert(x.drop_last() =~= w + seq!['\n'] + t);
    lemma_split_concat(w, t);
    lemma_split_single(t);
    text::lemma_split_on_nonempty(w, '\n');
}

/// A text ending with a line break keeps, as lines, the lines of the text
/// without it; only a carriage return at the end of its last line goes.
proof fn lemma_lines_ended(c: Seq<char>)
    requires
        c.len() > 0 && c.last() != '\n',
    ensures
        text::lines(c + seq!['\n']).len() == text::lines(c).len(),
        forall|i: int|
            0 <= i < text::lines(c).len() - 1 ==> #[trigger] text::lines(c + seq!['\n'])[i]
                == text::lines(c)[i],
        text::lines(c + seq!['\n']).last() == text::strip_cr(text::lines(c).last()),
{
    assert((c + seq!['\n']).drop_last() =~= c);
    text::lemma_split_on_nonempty(c, '\n');
}

proof fn lemma_trim_without_last_ws(l: Seq<char>)
    requires
        l.len() > 0 && text::is_ws(l.last()),
    ensures
        text::trim(l.drop_last()) == text::trim(l),
    decreases l.len(),
{
    if l.len() == 1 {
        assert(text::trim_start(l) == text::trim_start(l.drop_first()));
        assert(l.drop_first() =~= Seq::<char>::empty());
        assert(l.drop_last() =~= Seq::<char>::empty());
    } else if text::is_ws(l[0]) {
        lemma_trim_without_last_ws(l.drop_first());
        assert(l.drop_first().drop_last() =~= l.drop_last().drop_first());
    } else {
        assert(l.drop_last()[0] == l[0]);
    }
}

proof fn lemma_trim_start_without_last_ws(l: Seq<char>)
    requires
        l.len() > 0 && text::is_ws(l.last()),
        text::trim_start(l).len() > 0,
    ensures
        text::trim_start(l.drop_last()) == text::trim_start(l).drop_last(),
    decreases l.len(),
{
    if text::is_ws(l[0]) {
        if l.len() == 1 {
            assert(l.drop_first() =~= Seq::<char>::empty());
            assert(text::trim_start(l) == text::trim_start(l.drop_first()));
        } else {
            lemma_trim_start_without_last_ws(l.drop_first());
            assert(l.drop_first().drop_last() =~= l.drop_last().drop_first());
            assert(l.drop_last()[0] == l[0]);
            assert(text::trim_start(l.drop_last()) == text::trim_start(l.drop_last().drop_first()));
            assert(text::trim_start(l) == text::trim_start(l.drop_first()));
        }
    } else {
        assert(l.len() >= 2);
        assert(l.drop_last()[0] == l[0]);
        assert(text::trim_start(l) == l);
        assert(text::trim_start(l.drop_last()) == l.drop_last());
    }
}

proof fn lemma_trim_start_suffix(l: Seq<char>)
    ensures
        text::trim_start(l).len() <= l.len(),
        text::trim_start(l) =~= l.skip(l.len() - text::trim_start(l).len()),
    decreases l.len(),
{
    if l.len() > 0 && text::is_ws(l[0]) {
        lemma_trim_start_suffix(l.drop_first());
        assert(l.drop_first().skip(l.drop_first().len() - text::trim_start(l).len()) =~= l.skip(
            l.len() - text::trim_start(l).len(),
        ));
    }
}

/// A line that defines the app alias still does after its carriage return
/// goes.
proof fn lemma_alias_line_without_cr(l: Seq<char>)
    requires
        text::starts_with(text::trim_start(l), "alias easya="@),
    ensures
        text::starts_with(text::trim_start(text::strip_cr(l)), "alias easya="@),
{
    reveal_strlit("alias easya=");
    if l.len() > 0 && l.last() == '\r' {
        let x = text::trim_start(l);
        lemma_trim_start_suffix(l);
        assert(x.last() == l.last());
        assert(x.len() > 12) by {
            if x.len() == 12 {
                assert(x.take(12) =~= x);
                assert(x[11] == '=');
            }
        }
        lemma_trim_start_without_last_ws(l);
        assert(x.drop_last().take(12) =~= x.take(12));
    }
}

/// A line that is the source line, surrounding whitespace aside, still is
/// after its carriage return goes.
proof fn lemma_source_line_without_cr(l: Seq<char>)
    ensures
        text::trim(text::strip_cr(l)) == text::trim(l),
{
    if l.len() > 0 && l.last() == '\r' {
        lemma_trim_without_last_ws(l);
    }
}

proof fn lemma_literal_lines()
    ensures
        no_newline(SOURCE_LINE@),
        no_newline(APP_ALIAS_LINE@),
        text::strip_cr(SOURCE_LINE@) == SOURCE_LINE@,
        text::strip_cr(APP_ALIAS_LINE@) == APP_ALIAS_LINE@,
        text::trim(SOURCE_LINE@) == SOURCE_LINE@,
        text::starts_with(text::trim_start(APP_ALIAS_LINE@), "alias easya="@),
{
    reveal_strlit("source ~/.easyalias/aliases.sh");
    reveal_strlit("alias easya='setsid -f easyalias >/dev/null 2>&1'");
    reveal_strlit("alias easya=");
    reveal_with_fuel(no_newline, 52);
    assert(APP_ALIAS_LINE@.take(12) =~= "alias easya="@);
    assert(!text::is_ws(APP_ALIAS_LINE@[0]));
    assert(text::trim_start(APP_ALIAS_LINE@) == APP_ALIAS_LINE@);
}

/// Every line of the startup file is still a line of the file with the
/// EasyAlias lines appended: unchanged, or (the last line of a file without
/// a final line break) without its carriage return.
proof fn lemma_lines_kept(c: Seq<char>, i: int)
    requires
        0 <= i < text::lines(c).len(),
    ensures
        exists|j: int|
            0 <= j < text::lines(with_easyalias_lines(c)).len() && (#[trigger] text::lines(
                with_easyalias_lines(c),
            )[j] == text::lines(c)[i] || text::lines(with_easyalias_lines(c))[j] == text::strip_cr(
                text::lines(c)[i],
            )),
{
    reveal_strlit("\n");
    assert("\n"@ =~= seq!['\n']);
    let ended = if c.len() > 0 && c.last() != '\n' {
        c + seq!['\n']
    } else {
        c
    };
    let r = with_easyalias_lines(c);
    let extra = r.subrange(ended.len() as int, r.len() as int);
    assert(r =~= ended + extra);
    assert(c.len() > 0);
    // The lines of `ended` hold the line.
    let j0: int = i;
    if c.last() != '\n' {
        lemma_lines_ended(c);
    }
    assert(text::lines(ended)[j0] == text::lines(c)[i] || text::lines(ended)[j0] == text::strip_cr(
        text::lines(c)[i],
    ));
    if extra.len() == 0 {
        assert(r =~= ended);
    } else {
        assert(extra.last() == '\n') by {
            reveal_strlit("\n");
        }
        lemma_lines_concat(ended, extra);
        assert(text::lines(r)[j0] == text::lines(ended)[j0]);
    }
}

/// Connecting the shell keeps the startup file as it was and only appends:
/// what was there is a prefix of the new text.
pub proof fn lemma_connect_keeps_the_file(content: Seq<char>)
    ensures
        with_easyalias_lines(content).len() >= content.len(),
        with_easyalias_lines(content).take(content.len() as int) == content,
{
    let r = with_easyalias_lines(content);
    assert(r.take(content.len() as int) =~= content);
}

proof fn lemma_blocks()
    ensures
        ({
            let src_block = seq!['\n'] + "# EasyAlias aliases"@ + seq!['\n'] + SOURCE_LINE@ + seq!['\n'];
            &&& "\n# EasyAlias aliases\n"@ + SOURCE_LINE@ + "\n"@ == src_block
            &&& text::lines(src_block).len() > 0
            &&& text::lines(src_block).last() == SOURCE_LINE@
        }),
        ({
            let app_block = seq!['\n'] + "# EasyAlias app shortcut"@ + seq!['\n'] + APP_ALIAS_LINE@
                + seq!['\n'];
            &&& "\n# EasyAlias app shortcut\n"@ + APP_ALIAS_LINE@ + "\n"@ == app_block
            &&& text::lines(app_block).len() > 0
            &&& text::lines(app_block).last() == APP_ALIAS_LINE@
        }),
        "\n"@ == seq!['\n'],
{
    lemma_literal_lines();
    reveal_strlit("\n");
    reveal_strlit("\n# EasyAlias aliases\n");
    reveal_strlit("# EasyAlias aliases");
    reveal_strlit("\n# EasyAlias app shortcut\n");
    reveal_strlit("# EasyAlias app shortcut");
    assert("\n"@ =~= seq!['\n']);
    let src_block = seq!['\n'] + "# EasyAlias aliases"@ + seq!['\n'] + SOURCE_LINE@ + seq!['\n'];
    let app_block = seq!['\n'] + "# EasyAlias app shortcut"@ + seq!['\n'] + APP_ALIAS_LINE@ + seq![
        '\n',
    ];
    assert("\n# EasyAlias aliases\n"@ + SOURCE_LINE@ + "\n"@ =~= src_block);
    assert("\n# EasyAlias app shortcut\n"@ + APP_ALIAS_LINE@ + "\n"@ =~= app_block);
    lemma_last_line(seq!['\n'] + "# EasyAlias aliases"@, SOURCE_LINE@);
    lemma_last_line(seq!['\n'] + "# EasyAlias app shortcut"@, APP_ALIAS_LINE@);
    assert(src_block =~= (seq!['\n'] + "# EasyAlias aliases"@) + seq!['\n'] + SOURCE_LINE@ + seq![
        '\n',
    ]);
    assert(app_block =~= (seq!['\n'] + "# EasyAlias app shortcut"@) + seq!['\n'] + APP_ALIAS_LINE@
        + seq!['\n']);
}

proof fn lemma_connect_loads_aliases(content: Seq<char>)
    ensures
        has_source_line(with_easyalias_lines(content)),
{
    lemma_literal_lines();
    lemma_blocks();
    let r = with_easyalias_lines(content);
    if has_source_line(content) {
        let i = choose|i: int|
            0 <= i < text::lines(content).len() && text::trim(#[trigger] text::lines(content)[i])
                == SOURCE_LINE@;
        lemma_lines_kept(content, i);
        lemma_source_line_without_cr(text::lines(content)[i]);
        let j = choose|j: int|
            0 <= j < text::lines(r).len() && (#[trigger] text::lines(r)[j] == text::lines(content)[i]
                || text::lines(r)[j] == text::strip_cr(text::lines(content)[i]));
        assert(text::trim(text::lines(r)[j]) == SOURCE_LINE@);
    } else {
        let ended = if content.len() > 0 && content.last() != '\n' {
            content + seq!['\n']
        } else {
            content
        };
        let src_block = seq!['\n'] + "# EasyAlias aliases"@ + seq!['\n'] + SOURCE_LINE@ + seq![
            '\n',
        ];
        let rest = r.subrange((ended.len() + src_block.len()) as int, r.len() as int);
        assert(r =~= ended + src_block + rest);
        let lines_src = text::lines(src_block);
        let k = lines_src.len() - 1;
        let front = ended + src_block;
        if ended.len() == 0 {
            assert(front =~= src_block);
        } else {
            lemma_lines_concat(ended, src_block);
        }
        let fk = text::lines(front).len() - 1;
        assert(text::lines(front)[fk] == SOURCE_LINE@);
        if rest.len() == 0 {
            assert(r =~= front);
        } else {
            assert(rest.last() == '\n');
            lemma_lines_concat(front, rest);
            assert(text::lines(r)[fk] == SOURCE_LINE@);
        }
        assert(text::trim(text::lines(r)[fk]) == SOURCE_LINE@);
    }
}

proof fn lemma_connect_defines_app_alias(content: Seq<char>)
    ensures
        has_app_alias(with_easyalias_lines(content)),
{
    lemma_literal_lines();
    lemma_blocks();
    let r = with_easyalias_lines(content);
    if has_app_alias(content) {
        let i = choose|i: int|
            0 <= i < text::lines(content).len() && text::starts_with(
                text::trim_start(#[trigger] text::lines(content)[i]),
                "alias easya="@,
            );
        lemma_lines_kept(content, i);
        lemma_alias_line_without_cr(text::lines(content)[i]);
        let j = choose|j: int|
            0 <= j < text::lines(r).len() && (#[trigger] text::lines(r)[j] == text::lines(content)[i]
                || text::lines(r)[j] == text::strip_cr(text::lines(content)[i]));
        assert(text::starts_with(text::trim_start(text::lines(r)[j]), "alias easya="@));
    } else {
        let app_block = seq!['\n'] + "# EasyAlias app shortcut"@ + seq!['\n'] + APP_ALIAS_LINE@
            + seq!['\n'];
        let before = r.subrange(0, r.len() - app_block.len());
        assert(r =~= before + app_block);
        let lines_app = text::lines(app_block);
        let k = lines_app.len() - 1;
        if before.len() == 0 {
            assert(r =~= app_block);
        } else {
            assert(before.last() == '\n');
            lemma_lines_concat(before, app_block);
        }
        let rk = text::lines(r).len() - 1;
        assert(text::lines(r)[rk] == APP_ALIAS_LINE@);
    }
}

/// Connecting the shell a second time changes nothing: once the EasyAlias
/// lines were appended, the file loads the aliases and defines the app
/// alias.
pub proof fn lemma_connect_is_idempotent(content: Seq<char>)
    ensures
        has_source_line(with_easyalias_lines(content)),
        has_app_alias(with_easyalias_lines(content)),
{
    lemma_connect_loads_aliases(content);
    lemma_connect_defines_app_alias(content);
}

} // verus!
