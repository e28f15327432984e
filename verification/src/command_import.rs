//! Taking over simple `.cmd` and `.bat` command files that the user keeps in
//! folders on the Windows PATH: which files qualify, which are offered, and
//! what importing the chosen ones stores.

use vstd::prelude::*;
use crate::text;
use crate::order;
use crate::shell_alias;
use crate::cmd_scripts;
use crate::automation_store;
use crate::tui_forms;
use crate::text::{chars_of, eq_chars, is_blank_str, lower_ascii_chars, push_str, slice_chars, split_chars, string_of, trim_chars, push_all};
use crate::message::{concat3, owned};
use crate::alias_entry::AliasEntry;
use crate::alias_store::count_distinct;
use crate::automation_store::is_chosen;
use crate::cmd_scripts::{normalize_path, parse_legacy_command_script, path_is_within};
use crate::shell_alias::{push_decimal, valid_name_chars};
use crate::order::{Ordered, sort_in_order, text_less};

verus! {

/// The most command files offered at once.
pub const MAX_COMMAND_FILES: usize = 200;

/// A command file that can become an alias.
#[derive(Clone, Debug)]
pub struct CommandFileCandidate {
    /// The file's normalized path, which also identifies it.
    pub id: String,
    pub name: String,
    pub command: String,
    /// The path as shown to the user.
    pub source_file: String,
    pub source_path: String,
}

impl CommandFileCandidate {
    /// A field-by-field copy.
    pub fn copy(&self) -> (r: Self)
        ensures
            r == *self,
    {
        CommandFileCandidate {
            id: self.id.clone(),
            name: self.name.clone(),
            command: self.command.clone(),
            source_file: self.source_file.clone(),
            source_path: self.source_path.clone(),
        }
    }
}

impl Ordered for CommandFileCandidate {
    open spec fn goes_before(&self, other: &Self) -> bool {
        order::text_before(self.name@, other.name@)
    }

    fn before(&self, other: &Self) -> (r: bool) {
        let a = chars_of(self.name.as_str());
        let b = chars_of(other.name.as_str());
        text_less(&a, &b)
    }

    proof fn lemma_asymmetric(a: Self, b: Self) {
        order::lemma_text_before_asymmetric(a.name@, b.name@);
    }

    proof fn lemma_negatively_transitive(a: Self, b: Self, c: Self) {
        order::lemma_text_before_negatively_transitive(a.name@, b.name@, c.name@);
    }
}

/// The position of the last `c` in `s`.
pub open spec fn last_index(s: Seq<char>, c: char) -> Option<int>
    decreases s.len(),
{
    if s.len() == 0 {
        None
    } else if s.last() == c {
        Some(s.len() - 1)
    } else {
        last_index(s.drop_last(), c)
    }
}

pub(crate) proof fn lemma_last_index(s: Seq<char>, c: char)
    ensures
        match last_index(s, c) {
            Some(k) => 0 <= k < s.len() && s[k] == c,
            None => true,
        },
    decreases s.len(),
{
    if s.len() > 0 && s.last() != c {
        lemma_last_index(s.drop_last(), c);
    }
}

/// A file extension of a command script, in any letter case.
pub open spec fn is_script_extension(ext: Seq<char>) -> bool {
    text::ascii_lower_seq(ext) == seq!['c', 'm', 'd'] || text::ascii_lower_seq(ext) == seq![
        'b',
        'a',
        't',
    ]
}

/// The stem of a script's file name: what stands before its last dot, when
/// that dot is not the first character and a script extension follows it.
pub open spec fn script_stem(file_name: Seq<char>) -> Option<Seq<char>> {
    match last_index(file_name, '.') {
        Some(k) => if k > 0 && is_script_extension(file_name.skip(k + 1)) {
            Some(file_name.take(k))
        } else {
            None
        },
        None => None,
    }
}

/// The alias a command file would become: its stem, when that is a valid
/// alias name other than the one that opens EasyAlias (in any case).
pub open spec fn command_name(file_name: Seq<char>) -> Option<Seq<char>> {
    match script_stem(file_name) {
        Some(stem) => if shell_alias::valid_alias_name(stem) && text::ascii_lower_seq(stem)
            != shell_alias::app_alias_name() {
            Some(stem)
        } else {
            None
        },
        None => None,
    }
}

pub(crate) fn last_dot(s: &Vec<char>) -> (r: Option<usize>)
    ensures
        match r {
            Some(k) => last_index(s@, '.') == Some(k as int),
            None => last_index(s@, '.') is None,
        },
{
    let mut k: usize = s.len();
    assert(s@.take(k as int) =~= s@);
    while k > 0
        invariant
            k <= s@.len(),
            last_index(s@, '.') == last_index(s@.take(k as int), '.'),
        decreases k,
    {
        assert(s@.take(k as int).drop_last() =~= s@.take(k - 1));
        assert(s@.take(k as int).last() == s@[k - 1]);
        if s[k - 1] == '.' {
            return Some(k - 1);
        }
        k = k - 1;
    }
    None
}

/// The alias name a file in a PATH folder would be imported as, if any.
pub fn command_file_name(file_name: &str) -> (r: Option<String>)
    ensures
        match command_name(file_name@) {
            Some(name) => r is Some && r->Some_0@ == name,
            None => r is None,
        },
{
    let s = chars_of(file_name);
    let k = match last_dot(&s) {
        Some(k) => k,
        None => {
            return None;
        },
    };
    proof {
        lemma_last_index(s@, '.');
    }
    if k == 0 {
        return None;
    }
    let ext = slice_chars(&s, k + 1, s.len());
    assert(ext@ =~= s@.skip(k + 1));
    let lower_ext = lower_ascii_chars(&ext);
    let cmd: Vec<char> = vec!['c', 'm', 'd'];
    let bat: Vec<char> = vec!['b', 'a', 't'];
    assert(cmd@ =~= seq!['c', 'm', 'd']);
    assert(bat@ =~= seq!['b', 'a', 't']);
    if !eq_chars(&lower_ext, &cmd) && !eq_chars(&lower_ext, &bat) {
        return None;
    }
    let stem = slice_chars(&s, 0, k);
    assert(stem@ =~= s@.take(k as int));
    if !valid_name_chars(&stem) {
        return None;
    }
    let lower_stem = lower_ascii_chars(&stem);
    let reserved: Vec<char> = vec!['e', 'a', 's', 'y', 'a'];
    assert(reserved@ =~= shell_alias::app_alias_name());
    if eq_chars(&lower_stem, &reserved) {
        return None;
    }
    Some(string_of(&stem))
}

/// Whether `c` is what a file at `path` named `file_name`, holding
/// `content` and shown as `source_file`, is offered as.
pub open spec fn candidate_of(
    c: CommandFileCandidate,
    path: Seq<char>,
    name: Seq<char>,
    command: Seq<char>,
    source_file: Seq<char>,
) -> bool {
    &&& c.id@ == cmd_scripts::normalized_path(path)
    &&& c.name@ == name
    &&& c.command@ == command
    &&& c.source_file@ == source_file
    &&& c.source_path@ == path
}

/// The import candidate for the file at `path` (named `file_name`, holding
/// `content`, shown as `source_file`): present when the file name gives an
/// alias name and the content is a simple one-command script.
pub fn command_file_candidate(path: &str, file_name: &str, content: &str, source_file: &str) -> (r:
    Option<CommandFileCandidate>)
    ensures
        match (command_name(file_name@), cmd_scripts::legacy_command(content@)) {
            (Some(name), Some(command)) => r is Some && candidate_of(
                r->Some_0,
                path@,
                name,
                command,
                source_file@,
            ),
            _ => r is None,
        },
{
    let name = match command_file_name(file_name) {
        Some(name) => name,
        None => {
            return None;
        },
    };
    let command = match parse_legacy_command_script(content) {
        Some(command) => command,
        None => {
            return None;
        },
    };
    Some(
        CommandFileCandidate {
            id: normalize_path(path),
            name,
            command,
            source_file: owned(source_file),
            source_path: owned(path),
        },
    )
}

/// A candidate's name in ASCII lowercase: Windows command names ignore case.
pub open spec fn folded(c: CommandFileCandidate) -> Seq<char> {
    text::ascii_lower_seq(c.name@)
}

/// How many candidates carry the lowercase name `key`.
pub open spec fn folded_count(s: Seq<CommandFileCandidate>, key: Seq<char>) -> nat
    decreases s.len(),
{
    if s.len() == 0 {
        0
    } else {
        folded_count(s.drop_last(), key) + if folded(s.last()) == key {
            1nat
        } else {
            0nat
        }
    }
}

/// The candidates of `ps` whose name, ignoring case, occurs once in `all`.
pub open spec fn single_names(
    ps: Seq<CommandFileCandidate>,
    all: Seq<CommandFileCandidate>,
) -> Seq<CommandFileCandidate>
    decreases ps.len(),
{
    if ps.len() == 0 {
        Seq::empty()
    } else {
        let prev = single_names(ps.drop_last(), all);
        if folded_count(all, folded(ps.last())) == 1 {
            prev.push(ps.last())
        } else {
            prev
        }
    }
}

/// What is offered of the command files found: those whose name no other
/// file shares (ignoring case), in name order, at most `MAX_COMMAND_FILES`.
pub open spec fn offered_files(found: Seq<CommandFileCandidate>) -> Seq<CommandFileCandidate> {
    let sorted = order::in_order(single_names(found, found));
    if sorted.len() <= MAX_COMMAND_FILES {
        sorted
    } else {
        sorted.take(MAX_COMMAND_FILES as int)
    }
}

fn count_folded(s: &Vec<CommandFileCandidate>, key: &Vec<char>) -> (n: usize)
    ensures
        n as nat == folded_count(s@, key@),
{
    let mut n: usize = 0;
    let mut i: usize = 0;
    while i < s.len()
        invariant
            i <= s@.len(),
            n as nat == folded_count(s@.take(i as int), key@),
            n <= i,
        decreases s@.len() - i,
    {
        assert(s@.take(i + 1).drop_last() =~= s@.take(i as int));
        assert(s@.take(i + 1).last() == s@[i as int]);
        let lower = lower_ascii_chars(&chars_of(s[i].name.as_str()));
        if eq_chars(&lower, key) {
            n = n + 1;
        }
        i = i + 1;
    }
    assert(s@.take(s@.len() as int) =~= s@);
    n
}

/// The command files to offer out of those found in the PATH folders: a
/// name that two files share (ignoring case) is left out, the rest comes in
/// name order, cut at `MAX_COMMAND_FILES`.
pub fn unique_command_files(found: Vec<CommandFileCandidate>) -> (r: Vec<CommandFileCandidate>)
    ensures
        r@ == offered_files(found@),
{
    let mut kept: Vec<CommandFileCandidate> = Vec::new();
    let mut i: usize = 0;
    while i < found.len()
        invariant
            i <= found@.len(),
            kept@ == single_names(found@.take(i as int), found@),
        decreases found@.len() - i,
    {
        assert(found@.take(i + 1).drop_last() =~= found@.take(i as int));
        assert(found@.take(i + 1).last() == found@[i as int]);
        let key = lower_ascii_chars(&chars_of(found[i].name.as_str()));
        if count_folded(&found, &key) == 1 {
            kept.push(found[i].copy());
        }
        i = i + 1;
    }
    assert(found@.take(found@.len() as int) =~= found@);
    sort_in_order(&mut kept);
    kept.truncate(MAX_COMMAND_FILES);
    kept
}

/// Whether a stored alias has the lowercase name `key`, ignoring case.
pub open spec fn folded_taken(aliases: Seq<AliasEntry>, key: Seq<char>) -> bool {
    exists|j: int| 0 <= j < aliases.len() && text::ascii_lower_seq(aliases[j].name@) == key
}

fn has_folded_name(aliases: &Vec<AliasEntry>, key: &Vec<char>) -> (r: bool)
    ensures
        r == folded_taken(aliases@, key@),
{
    let mut i: usize = 0;
    while i < aliases.len()
        invariant
            i <= aliases@.len(),
            forall|j: int| 0 <= j < i ==> text::ascii_lower_seq(aliases@[j].name@) != key@,
        decreases aliases@.len() - i,
    {
        let lower = lower_ascii_chars(&chars_of(aliases[i].name.as_str()));
        if eq_chars(&lower, key) {
            return true;
        }
        i = i + 1;
    }
    false
}

/// The candidates whose name no stored alias has, ignoring case.
pub open spec fn not_yet_aliases(
    aliases: Seq<AliasEntry>,
    found: Seq<CommandFileCandidate>,
) -> Seq<CommandFileCandidate>
    decreases found.len(),
{
    if found.len() == 0 {
        Seq::empty()
    } else {
        let prev = not_yet_aliases(aliases, found.drop_last());
        if folded_taken(aliases, folded(found.last())) {
            prev
        } else {
            prev.push(found.last())
        }
    }
}

/// The offered command files that are not already aliases: Windows command
/// names ignore case, so names are compared in lowercase.
pub fn importable_command_files(aliases: &Vec<AliasEntry>, offered: Vec<CommandFileCandidate>) -> (r:
    Vec<CommandFileCandidate>)
    ensures
        r@ == not_yet_aliases(aliases@, offered@),
{
    let mut kept: Vec<CommandFileCandidate> = Vec::new();
    let mut i: usize = 0;
    while i < offered.len()
        invariant
            i <= offered@.len(),
            kept@ == not_yet_aliases(aliases@, offered@.take(i as int)),
        decreases offered@.len() - i,
    {
        assert(offered@.take(i + 1).drop_last() =~= offered@.take(i as int));
        assert(offered@.take(i + 1).last() == offered@[i as int]);
        let key = lower_ascii_chars(&chars_of(offered[i].name.as_str()));
        if !has_folded_name(aliases, &key) {
            kept.push(offered[i].copy());
        }
        i = i + 1;
    }
    assert(offered@.take(offered@.len() as int) =~= offered@);
    kept
}

/// The scanned command files whose id was chosen, in scan order.
pub open spec fn chosen_files(scanned: Seq<CommandFileCandidate>, ids: Seq<String>) -> Seq<
    CommandFileCandidate,
>
    decreases scanned.len(),
{
    if scanned.len() == 0 {
        Seq::empty()
    } else {
        let prev = chosen_files(scanned.drop_last(), ids);
        if automation_store::id_chosen(ids, scanned.last().id@) {
            prev.push(scanned.last())
        } else {
            prev
        }
    }
}

/// Whether the chosen file at `k` would give a name that a stored alias or
/// an earlier chosen file already has, ignoring case.
pub open spec fn clashes_at(aliases: Seq<AliasEntry>, chosen: Seq<CommandFileCandidate>, k: int) -> bool {
    folded_taken(aliases, folded(chosen[k])) || exists|j: int|
        0 <= j < k && folded(chosen[j]) == folded(chosen[k])
}

/// Whether `k` is the first chosen file whose name clashes.
pub open spec fn first_clash_at(
    aliases: Seq<AliasEntry>,
    chosen: Seq<CommandFileCandidate>,
    k: int,
) -> bool {
    0 <= k < chosen.len() && clashes_at(aliases, chosen, k) && forall|j: int|
        0 <= j < k ==> !clashes_at(aliases, chosen, j)
}

/// The first chosen file whose name clashes.
pub open spec fn first_clash(aliases: Seq<AliasEntry>, chosen: Seq<CommandFileCandidate>) -> Option<int> {
    if exists|k: int| first_clash_at(aliases, chosen, k) {
        Some(choose|k: int| first_clash_at(aliases, chosen, k))
    } else {
        None
    }
}

proof fn lemma_first_clash(aliases: Seq<AliasEntry>, chosen: Seq<CommandFileCandidate>, k: int)
    requires
        first_clash_at(aliases, chosen, k),
    ensures
        first_clash(aliases, chosen) == Some(k),
{
    let c = choose|k: int| first_clash_at(aliases, chosen, k);
    assert(first_clash_at(aliases, chosen, c));
    if c < k {
        assert(!clashes_at(aliases, chosen, c));
    }
    if k < c {
        assert(!clashes_at(aliases, chosen, k));
    }
}

/// The alias the `index`-th chosen file becomes: a custom command with id
/// `imported-{import id}-{index}`.
pub open spec fn imported_command(
    c: CommandFileCandidate,
    e: AliasEntry,
    import_id: u64,
    index: int,
    timestamp: Seq<char>,
) -> bool {
    &&& e.id@ == "imported-"@ + shell_alias::decimal(import_id as nat) + "-"@ + shell_alias::decimal(
        index as nat,
    )
    &&& e.name@ == c.name@
    &&& e.path@.len() == 0
    &&& e.action@ == "custom"@
    &&& e.custom_command is Some
    &&& e.custom_command->Some_0@ == c.command@
    &&& e.command_preview@ == c.command@
    &&& !e.favorite
    &&& e.created_at@ == timestamp
    &&& e.updated_at@ == timestamp
}

/// What importing command files stores, and the files it takes over (to be
/// backed up and removed).
pub struct CommandImportPlan {
    pub aliases: Vec<AliasEntry>,
    pub imported: Vec<CommandFileCandidate>,
}

fn imported_entry(c: &CommandFileCandidate, import_id: u64, index: usize, timestamp: &str) -> (r:
    AliasEntry)
    ensures
        imported_command(*c, r, import_id, index as int, timestamp@),
{
    let mut id: Vec<char> = Vec::new();
    push_str(&mut id, "imported-");
    push_decimal(&mut id, import_id);
    push_str(&mut id, "-");
    push_decimal(&mut id, index as u64);
    assert(id@ =~= "imported-"@ + shell_alias::decimal(import_id as nat) + "-"@ + shell_alias::decimal(
        index as nat,
    ));
    AliasEntry {
        id: string_of(&id),
        name: owned(c.name.as_str()),
        path: String::new(),
        action: owned("custom"),
        custom_command: Some(owned(c.command.as_str())),
        command_preview: owned(c.command.as_str()),
        favorite: false,
        created_at: owned(timestamp),
        updated_at: owned(timestamp),
    }
}

/// Plans the import of the chosen command files out of a fresh scan.
/// Refused when nothing is chosen, the timestamp is blank, a chosen file is
/// no longer found, or a name would exist twice (ignoring case). Otherwise
/// each chosen file becomes a custom alias, the aliases are kept in name
/// order, and `import_id` (the import's Unix time) keeps the new ids unique.
pub fn plan_command_file_import(
    aliases: Vec<AliasEntry>,
    scanned: Vec<CommandFileCandidate>,
    selected_ids: &Vec<String>,
    timestamp: &str,
    import_id: u64,
) -> (r: Result<CommandImportPlan, String>)
    ensures
        ({
            let chosen = chosen_files(scanned@, selected_ids@);
            if selected_ids@.len() == 0 {
                r is Err && r->Err_0@ == "Select at least one command file to import."@
            } else if text::trim(timestamp@).len() == 0 {
                r is Err && r->Err_0@ == "Import timestamp is missing."@
            } else if chosen.len() != automation_store::distinct_ids(selected_ids@) {
                r is Err && r->Err_0@ == "Some command files changed. Reopen EasyAlias and try again."@
            } else {
                match first_clash(aliases@, chosen) {
                    Some(k) => r is Err && r->Err_0@ == "Alias \""@ + chosen[k].name@
                        + "\" already exists."@,
                    None => r is Ok && r->Ok_0.imported@ == chosen && exists|added: Seq<AliasEntry>|
                        added.len() == chosen.len() && (forall|i: int|
                            0 <= i < chosen.len() ==> imported_command(
                                chosen[i],
                                #[trigger] added[i],
                                import_id,
                                i,
                                timestamp@,
                            )) && r->Ok_0.aliases@ == order::in_order(aliases@ + added),
                }
            }
        }),
{
    if selected_ids.len() == 0 {
        return Err(owned("Select at least one command file to import."));
    }
    if is_blank_str(timestamp) {
        return Err(owned("Import timestamp is missing."));
    }
    let distinct = count_distinct(selected_ids);
    let mut chosen: Vec<CommandFileCandidate> = Vec::new();
    let mut i: usize = 0;
    while i < scanned.len()
        invariant
            i <= scanned@.len(),
            chosen@ == chosen_files(scanned@.take(i as int), selected_ids@),
        decreases scanned@.len() - i,
    {
        assert(scanned@.take(i + 1).drop_last() =~= scanned@.take(i as int));
        assert(scanned@.take(i + 1).last() == scanned@[i as int]);
        assert(selected_ids@.take(selected_ids@.len() as int) =~= selected_ids@);
        if is_chosen(selected_ids, scanned[i].id.as_str(), selected_ids.len()) {
            chosen.push(scanned[i].copy());
        }
        i = i + 1;
    }
    assert(scanned@.take(scanned@.len() as int) =~= scanned@);
    if chosen.len() != distinct {
        return Err(owned("Some command files changed. Reopen EasyAlias and try again."));
    }
    let ghost ch = chosen@;
    let mut k: usize = 0;
    while k < chosen.len()
        invariant
            k <= ch.len(),
            ch == chosen@,
            ch == chosen_files(scanned@, selected_ids@),
            ch.len() == automation_store::distinct_ids(selected_ids@),
            selected_ids@.len() > 0,
            text::trim(timestamp@).len() > 0,
            forall|j: int| 0 <= j < k ==> !clashes_at(aliases@, ch, j),
        decreases ch.len() - k,
    {
        let key = lower_ascii_chars(&chars_of(chosen[k].name.as_str()));
        let mut clash = has_folded_name(&aliases, &key);
        let mut j: usize = 0;
        while j < k
            invariant
                j <= k < ch.len(),
                ch == chosen@,
                key@ == folded(ch[k as int]),
                clash == (folded_taken(aliases@, folded(ch[k as int])) || exists|t: int|
                    0 <= t < j && folded(ch[t]) == folded(ch[k as int])),
            decreases k - j,
        {
            let other = lower_ascii_chars(&chars_of(chosen[j].name.as_str()));
            if eq_chars(&other, &key) {
                clash = true;
            }
            j = j + 1;
        }
        if clash {
            proof {
                lemma_first_clash(aliases@, ch, k as int);
            }
            return Err(concat3("Alias \"", chosen[k].name.as_str(), "\" already exists."));
        }
        k = k + 1;
    }
    assert(first_clash(aliases@, ch) is None) by {
        if exists|k: int| first_clash_at(aliases@, ch, k) {
            let c = choose|k: int| first_clash_at(aliases@, ch, k);
            assert(!clashes_at(aliases@, ch, c));
        }
    }
    let mut added: Vec<AliasEntry> = Vec::new();
    let mut i: usize = 0;
    while i < chosen.len()
        invariant
            i <= ch.len(),
            ch == chosen@,
            added@.len() == i,
            forall|t: int|
                0 <= t < i ==> imported_command(ch[t], #[trigger] added@[t], import_id, t, timestamp@),
        decreases ch.len() - i,
    {
        let e = imported_entry(&chosen[i], import_id, i, timestamp);
        added.push(e);
        i = i + 1;
    }
    let ghost ad = added@;
    let mut all = aliases;
    all.append(&mut added);
    sort_in_order(&mut all);
    Ok(CommandImportPlan { aliases: all, imported: chosen })
}

/// A PATH entry as written: trimmed, without its surrounding quotes.
pub open spec fn entry_text(entry: Seq<char>) -> Seq<char> {
    cmd_scripts::trim_char(text::trim(entry), '"')
}

fn unquote(t: &Vec<char>) -> (r: Vec<char>)
    ensures
        r@ == cmd_scripts::trim_char(t@, '"'),
{
    let mut lo: usize = 0;
    let mut hi: usize = t.len();
    assert(t@.subrange(0, t@.len() as int) =~= t@);
    while lo < hi && (t[lo] == '"' || t[hi - 1] == '"')
        invariant
            lo <= hi <= t@.len(),
            cmd_scripts::trim_char(t@, '"') == cmd_scripts::trim_char(
                t@.subrange(lo as int, hi as int),
                '"',
            ),
        decreases hi - lo,
    {
        if t[lo] == '"' {
            assert(t@.subrange(lo as int, hi as int).drop_first() =~= t@.subrange(lo + 1, hi as int));
            lo = lo + 1;
        } else {
            assert(t@.subrange(lo as int, hi as int).drop_last() =~= t@.subrange(lo as int, hi - 1));
            hi = hi - 1;
        }
    }
    slice_chars(t, lo, hi)
}

/// The entries of a `;`-separated PATH value, each trimmed and unquoted
/// (environment variables in them are still to be expanded).
pub fn path_entries(path_value: &str) -> (r: Vec<String>)
    ensures
        r@.len() == text::split_on(path_value@, ';').len(),
        forall|i: int|
            0 <= i < r@.len() ==> (#[trigger] r@[i])@ == entry_text(
                text::split_on(path_value@, ';')[i],
            ),
{
    let parts = split_chars(&chars_of(path_value), ';');
    let ghost split = text::split_on(path_value@, ';');
    let mut r: Vec<String> = Vec::new();
    let mut i: usize = 0;
    while i < parts.len()
        invariant
            i <= parts@.len(),
            parts@.map_values(|p: Vec<char>| p@) == split,
            r@.len() == i,
            forall|j: int| 0 <= j < i ==> (#[trigger] r@[j])@ == entry_text(split[j]),
        decreases parts@.len() - i,
    {
        assert(parts@.map_values(|p: Vec<char>| p@)[i as int] == parts@[i as int]@);
        let entry = unquote(&trim_chars(&parts[i]));
        r.push(string_of(&entry));
        i = i + 1;
    }
    r
}

/// Whether a folder with the same normalized path was already kept.
pub open spec fn folder_seen(kept: Seq<Seq<char>>, dir: Seq<char>) -> bool {
    exists|j: int|
        0 <= j < kept.len() && cmd_scripts::normalized_path(kept[j]) == cmd_scripts::normalized_path(
            dir,
        )
}

/// The folders searched for command files, out of the resolved PATH
/// folders `dirs`: those within `home`, other than EasyAlias's own command
/// folder `bin`, each once, in PATH order.
pub open spec fn scan_folders(dirs: Seq<Seq<char>>, home: Seq<char>, bin: Seq<char>) -> Seq<Seq<char>>
    decreases dirs.len(),
{
    if dirs.len() == 0 {
        Seq::empty()
    } else {
        let prev = scan_folders(dirs.drop_last(), home, bin);
        let d = dirs.last();
        if cmd_scripts::within(d, home) && cmd_scripts::normalized_path(d)
            != cmd_scripts::normalized_path(bin) && !folder_seen(prev, d) {
            prev.push(d)
        } else {
            prev
        }
    }
}

/// Chooses the PATH folders to search for command files (see
/// `scan_folders`); `dirs` are the PATH entries already resolved to real
/// folders.
pub fn command_file_folders(dirs: &Vec<String>, home: &str, managed_bin: &str) -> (r: Vec<String>)
    ensures
        tui_forms::texts(r@) == scan_folders(tui_forms::texts(dirs@), home@, managed_bin@),
{
    let ghost ds = tui_forms::texts(dirs@);
    let bin = normalize_path(managed_bin);
    let mut kept: Vec<String> = Vec::new();
    let mut keys: Vec<String> = Vec::new();
    let mut i: usize = 0;
    while i < dirs.len()
        invariant
            i <= dirs@.len(),
            ds == tui_forms::texts(dirs@),
            bin@ == cmd_scripts::normalized_path(managed_bin@),
            tui_forms::texts(kept@) == scan_folders(ds.take(i as int), home@, managed_bin@),
            keys@.len() == kept@.len(),
            forall|j: int|
                0 <= j < keys@.len() ==> (#[trigger] keys@[j])@ == cmd_scripts::normalized_path(
                    kept@[j]@,
                ),
        decreases dirs@.len() - i,
    {
        assert(ds.take(i + 1).drop_last() =~= ds.take(i as int));
        assert(ds.take(i + 1).last() == dirs@[i as int]@);
        let key = normalize_path(dirs[i].as_str());
        let mut seen = false;
        let mut j: usize = 0;
        while j < keys.len()
            invariant
                j <= keys@.len(),
                seen == exists|t: int| 0 <= t < j && keys@[t]@ == key@,
            decreases keys@.len() - j,
        {
            if keys[j] == key {
                seen = true;
            }
            j = j + 1;
        }
        let ghost kt = tui_forms::texts(kept@);
        assert(seen == folder_seen(kt, dirs@[i as int]@)) by {
            if seen {
                let t = choose|t: int| 0 <= t < keys@.len() && keys@[t]@ == key@;
                assert(kt[t] == kept@[t]@);
            }
            if folder_seen(kt, dirs@[i as int]@) {
                let t = choose|t: int|
                    0 <= t < kt.len() && cmd_scripts::normalized_path(kt[t])
                        == cmd_scripts::normalized_path(dirs@[i as int]@);
                assert(kt[t] == kept@[t]@);
                assert(keys@[t]@ == key@);
            }
        }
        if path_is_within(dirs[i].as_str(), home) && key != bin && !seen {
            kept.push(owned(dirs[i].as_str()));
            keys.push(key);
            assert(tui_forms::texts(kept@) =~= kt.push(dirs@[i as int]@));
        }
        i = i + 1;
    }
    assert(ds.take(ds.len() as int) =~= ds);
    kept
}

/// The values found for variables, as texts.
pub open spec fn opt_texts(v: Seq<Option<String>>) -> Seq<Option<Seq<char>>> {
    v.map_values(|o: Option<String>| match o {
        Some(t) => Some(t@),
        None => None,
    })
}

/// The position of the first `c` in `s`.
pub open spec fn next_index(s: Seq<char>, c: char) -> Option<int>
    decreases s.len(),
{
    if s.len() == 0 {
        None
    } else if s[0] == c {
        Some(0)
    } else {
        match next_index(s.drop_first(), c) {
            Some(i) => Some(i + 1),
            None => None,
        }
    }
}

proof fn lemma_next_index(s: Seq<char>, c: char, i: int)
    requires
        0 <= i <= s.len(),
        forall|j: int| 0 <= j < i ==> s[j] != c,
    ensures
        i < s.len() && s[i] == c ==> next_index(s, c) == Some(i),
        i == s.len() ==> next_index(s, c) is None,
    decreases i,
{
    if i > 0 {
        lemma_next_index(s.drop_first(), c, i - 1);
    }
}

fn find_from(s: &Vec<char>, c: char) -> (r: Option<usize>)
    ensures
        match r {
            Some(i) => next_index(s@, c) == Some(i as int) && i < s@.len(),
            None => next_index(s@, c) is None,
        },
{
    let mut i: usize = 0;
    while i < s.len()
        invariant
            i <= s@.len(),
            forall|j: int| 0 <= j < i ==> s@[j] != c,
        decreases s@.len() - i,
    {
        if s[i] == c {
            proof {
                lemma_next_index(s@, c, i as int);
            }
            return Some(i);
        }
        i = i + 1;
    }
    proof {
        lemma_next_index(s@, c, i as int);
    }
    None
}

/// The names of the `%NAME%` variables in `s`, in order: each runs from a
/// `%` to the next `%`, and a lone `%` at the end names nothing.
pub open spec fn percent_names(s: Seq<char>) -> Seq<Seq<char>>
    decreases s.len(),
{
    match next_index(s, '%') {
        Some(a) => if 0 <= a < s.len() {
            let after = s.skip(a + 1);
            match next_index(after, '%') {
                Some(b) => if 0 <= b < after.len() {
                    seq![after.take(b)] + percent_names(after.skip(b + 1))
                } else {
                    Seq::empty()
                },
                None => Seq::empty(),
            }
        } else {
            Seq::empty()
        },
        None => Seq::empty(),
    }
}

/// `s` with its `%NAME%` variables replaced, in order, by `vals`; a variable
/// without a value stays as written.
pub open spec fn percent_expanded(s: Seq<char>, vals: Seq<Option<Seq<char>>>) -> Seq<char>
    decreases s.len(),
{
    match next_index(s, '%') {
        Some(a) => if 0 <= a < s.len() {
            let after = s.skip(a + 1);
            match next_index(after, '%') {
                Some(b) => if 0 <= b < after.len() {
                    let name = after.take(b);
                    let value = if vals.len() > 0 && vals[0] is Some {
                        vals[0]->Some_0
                    } else {
                        seq!['%'] + name + seq!['%']
                    };
                    let later = if vals.len() > 0 {
                        vals.drop_first()
                    } else {
                        vals
                    };
                    s.take(a) + value + percent_expanded(after.skip(b + 1), later)
                } else {
                    s
                },
                None => s,
            }
        } else {
            s
        },
        None => s,
    }
}

fn names_from(s: &Vec<char>, out: &mut Vec<String>)
    ensures
        tui_forms::texts(final(out)@) == tui_forms::texts(old(out)@) + percent_names(s@),
    decreases s@.len(),
{
    let ghost before = tui_forms::texts(out@);
    let a = match find_from(s, '%') {
        Some(a) => a,
        None => {
            assert(before =~= before + Seq::<Seq<char>>::empty());
            return ;
        },
    };
    let n = s.len();
    let after = slice_chars(s, a + 1, n);
    assert(after@ =~= s@.skip(a + 1));
    let b = match find_from(&after, '%') {
        Some(b) => b,
        None => {
            assert(before =~= before + Seq::<Seq<char>>::empty());
            return ;
        },
    };
    let name = slice_chars(&after, 0, b);
    assert(name@ =~= after@.take(b as int));
    let rest = slice_chars(&after, b + 1, after.len());
    assert(rest@ =~= after@.skip(b + 1));
    out.push(string_of(&name));
    assert(tui_forms::texts(out@) =~= before + seq![name@]);
    names_from(&rest, out);
    assert(before + seq![name@] + percent_names(rest@) =~= before + (seq![name@] + percent_names(
        rest@,
    )));
}

/// The names of the `%NAME%` variables in a PATH entry, in order, for the
/// caller to look up.
pub fn percent_variables(value: &str) -> (r: Vec<String>)
    ensures
        tui_forms::texts(r@) == percent_names(value@),
{
    let mut out: Vec<String> = Vec::new();
    names_from(&chars_of(value), &mut out);
    assert(tui_forms::texts(Seq::<String>::empty()) =~= Seq::<Seq<char>>::empty());
    out
}

fn expand_from(s: &Vec<char>, vals: &Vec<Option<String>>, k: usize, out: &mut Vec<char>)
    requires
        k <= vals@.len(),
    ensures
        final(out)@ == old(out)@ + percent_expanded(s@, opt_texts(vals@).skip(k as int)),
    decreases s@.len(),
{
    let ghost vs = opt_texts(vals@).skip(k as int);
    let a = match find_from(s, '%') {
        Some(a) => a,
        None => {
            push_all(out, s);
            return ;
        },
    };
    let n = s.len();
    let after = slice_chars(s, a + 1, n);
    assert(after@ =~= s@.skip(a + 1));
    let b = match find_from(&after, '%') {
        Some(b) => b,
        None => {
            push_all(out, s);
            return ;
        },
    };
    let name = slice_chars(&after, 0, b);
    assert(name@ =~= after@.take(b as int));
    let rest = slice_chars(&after, b + 1, after.len());
    assert(rest@ =~= after@.skip(b + 1));
    let head = slice_chars(s, 0, a);
    assert(head@ =~= s@.take(a as int));
    let ghost start = out@;
    push_all(out, &head);
    let mut value: Vec<char> = Vec::new();
    let mut found = false;
    if k < vals.len() {
        match &vals[k] {
            Some(v) => {
                value = chars_of(v.as_str());
                found = true;
            },
            None => {},
        }
    }
    if !found {
        value.push('%');
        push_all(&mut value, &name);
        value.push('%');
    }
    assert(value@ =~= (if vs.len() > 0 && vs[0] is Some {
        vs[0]->Some_0
    } else {
        seq!['%'] + name@ + seq!['%']
    }));
    push_all(out, &value);
    let next = if k < vals.len() {
        k + 1
    } else {
        k
    };
    assert(opt_texts(vals@).skip(next as int) =~= (if vs.len() > 0 {
        vs.drop_first()
    } else {
        vs
    }));
    expand_from(&rest, vals, next, out);
    assert(out@ =~= start + percent_expanded(s@, vs));
}

/// A PATH entry with its `%NAME%` variables replaced by `values`, given in
/// the order of `percent_variables`; a variable without a value, and a
/// lone `%`, stay as written.
pub fn expand_percent_variables(value: &str, values: &Vec<Option<String>>) -> (r: String)
    ensures
        r@ == percent_expanded(value@, opt_texts(values@)),
{
    let mut out: Vec<char> = Vec::new();
    expand_from(&chars_of(value), values, 0, &mut out);
    assert(opt_texts(values@).skip(0) =~= opt_texts(values@));
    assert(out@ =~= Seq::<char>::empty() + percent_expanded(value@, opt_texts(values@)));
    string_of(&out)
}

/// The name of the `k`-th candidate folder for the copies of imported
/// command files: `import-backup-{stamp}`, then with `-{k}` added.
pub open spec fn import_backup_name(stamp: u64, k: nat) -> Seq<char> {
    let base = "import-backup-"@ + shell_alias::decimal(stamp as nat);
    if k == 0 {
        base
    } else {
        base + "-"@ + shell_alias::decimal(k)
    }
}

/// The `k`-th candidate name of the folder that keeps copies of the
/// imported command files.
pub fn import_backup_dir_name(stamp: u64, k: u64) -> (r: String)
    ensures
        r@ == import_backup_name(stamp, k as nat),
{
    let mut v: Vec<char> = Vec::new();
    push_str(&mut v, "import-backup-");
    push_decimal(&mut v, stamp);
    if k > 0 {
        push_str(&mut v, "-");
        push_decimal(&mut v, k);
    }
    string_of(&v)
}

} // verus!
