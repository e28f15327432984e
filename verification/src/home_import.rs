//! Importing aliases from all of the user's shell startup files at once, as
//! the sandboxed macOS app does: the files are read through the home folder
//! the user granted, candidates are numbered per file, and the EasyAlias
//! block is rewritten in every file.

use vstd::prelude::*;
use std::collections::HashMap;
use crate::text;
use crate::order;
use crate::paths;
use crate::shell_alias;
use crate::managed_block;
use crate::alias_entry;
use crate::shell_import;
use crate::automation_store;
use crate::text::{push_str, string_of};
use crate::message::{concat2, concat3, owned};
use crate::alias_entry::AliasEntry;
use crate::alias_store::count_distinct;
use crate::automation_store::is_chosen;
use crate::managed_block::{find_shell_aliases, update_managed_block};
use crate::paths::join_path;
use crate::shell_alias::{push_decimal, replace_imported_alias_lines, ShellAliasCandidate};
use crate::shell_import::has_alias_name;
use crate::order::sort_in_order;

verus! {

/// A startup file as read: how it is shown and what it holds.
pub struct StartupFile {
    pub display: String,
    pub content: String,
}

/// Where a startup file lives and how it is shown.
pub struct StartupPath {
    pub path: String,
    pub display: String,
}

/// The startup files read, in this order, below the home folder.
pub open spec fn startup_file_names() -> Seq<Seq<char>> {
    seq![".zshrc"@, ".bash_profile"@, ".bashrc"@]
}

/// The startup files below `home`: `~/.zshrc`, `~/.bash_profile` and
/// `~/.bashrc`, in this order.
pub fn shell_config_paths(home: &str) -> (r: Vec<StartupPath>)
    ensures
        r@.len() == 3,
        forall|i: int|
            0 <= i < 3 ==> (#[trigger] r@[i]).path@ == paths::path_join(home@, startup_file_names()[i])
                && r@[i].display@ == "~/"@ + startup_file_names()[i],
{
    let mut r: Vec<StartupPath> = Vec::new();
    r.push(StartupPath { path: join_path(home, ".zshrc"), display: concat2("~/", ".zshrc") });
    r.push(
        StartupPath { path: join_path(home, ".bash_profile"), display: concat2("~/", ".bash_profile") },
    );
    r.push(StartupPath { path: join_path(home, ".bashrc"), display: concat2("~/", ".bashrc") });
    r
}

/// An import candidate as seen in contracts: (id, name, command, line,
/// file shown).
pub open spec fn found_view(c: ShellAliasCandidate) -> (Seq<char>, Seq<char>, Seq<char>, int, Seq<char>) {
    (c.id@, c.name@, c.command@, c.line_number as int, c.source_file@)
}

/// The candidates as seen in contracts.
pub open spec fn found_views(s: Seq<ShellAliasCandidate>) -> Seq<
    (Seq<char>, Seq<char>, Seq<char>, int, Seq<char>),
> {
    s.map_values(|c: ShellAliasCandidate| found_view(c))
}

/// The id of the alias on `line` of the `file_index`-th startup file.
pub open spec fn home_line_id(file_index: nat, line: int) -> Seq<char> {
    "shell-"@ + shell_alias::decimal(file_index) + "-line-"@ + shell_alias::decimal(line as nat)
}

/// The aliases found in one startup file, with their ids and the file.
pub open spec fn tagged(
    file_index: nat,
    display: Seq<char>,
    entries: Seq<(int, Seq<char>, Seq<char>)>,
) -> Seq<(Seq<char>, Seq<char>, Seq<char>, int, Seq<char>)> {
    entries.map_values(
        |e: (int, Seq<char>, Seq<char>)| (home_line_id(file_index, e.0), e.1, e.2, e.0, display),
    )
}

/// Every alias found in the startup files, file after file; refused with
/// the first file whose EasyAlias block is malformed.
pub open spec fn scanned_files(files: Seq<StartupFile>) -> Result<
    Seq<(Seq<char>, Seq<char>, Seq<char>, int, Seq<char>)>,
    Seq<char>,
>
    decreases files.len(),
{
    if files.len() == 0 {
        Ok(Seq::empty())
    } else {
        match scanned_files(files.drop_last()) {
            Err(e) => Err(e),
            Ok(prev) => match managed_block::without_block(files.last().content@) {
                Err(e) => Err(e),
                Ok(_) => Ok(
                    prev + tagged(
                        (files.len() - 1) as nat,
                        files.last().display@,
                        managed_block::block_file_aliases(text::lines(files.last().content@)),
                    ),
                ),
            },
        }
    }
}

/// How many found aliases carry `name`.
pub open spec fn found_name_count(
    s: Seq<(Seq<char>, Seq<char>, Seq<char>, int, Seq<char>)>,
    name: Seq<char>,
) -> nat
    decreases s.len(),
{
    if s.len() == 0 {
        0
    } else {
        found_name_count(s.drop_last(), name) + if s.last().1 == name {
            1nat
        } else {
            0nat
        }
    }
}

/// The found aliases of `ps` whose name occurs once in `all`, in order.
pub open spec fn unique_found(
    ps: Seq<(Seq<char>, Seq<char>, Seq<char>, int, Seq<char>)>,
    all: Seq<(Seq<char>, Seq<char>, Seq<char>, int, Seq<char>)>,
) -> Seq<(Seq<char>, Seq<char>, Seq<char>, int, Seq<char>)>
    decreases ps.len(),
{
    if ps.len() == 0 {
        Seq::empty()
    } else {
        let prev = unique_found(ps.drop_last(), all);
        if found_name_count(all, ps.last().1) == 1 {
            prev.push(ps.last())
        } else {
            prev
        }
    }
}

/// The import candidates of the startup files: the aliases found, without
/// a name that occurs twice across all files.
pub open spec fn home_candidates(files: Seq<StartupFile>) -> Result<
    Seq<(Seq<char>, Seq<char>, Seq<char>, int, Seq<char>)>,
    Seq<char>,
> {
    match scanned_files(files) {
        Err(e) => Err(e),
        Ok(all) => Ok(unique_found(all, all)),
    }
}

fn found_count(s: &Vec<ShellAliasCandidate>, name: &String) -> (n: usize)
    ensures
        n as nat == found_name_count(found_views(s@), name@),
{
    let ghost fv = found_views(s@);
    let mut n: usize = 0;
    let mut i: usize = 0;
    while i < s.len()
        invariant
            i <= s@.len(),
            fv == found_views(s@),
            n as nat == found_name_count(fv.take(i as int), name@),
            n <= i,
        decreases s@.len() - i,
    {
        assert(fv.take(i + 1).drop_last() =~= fv.take(i as int));
        assert(fv.take(i + 1).last() == found_view(s@[i as int]));
        if s[i].name == *name {
            n = n + 1;
        }
        i = i + 1;
    }
    assert(fv.take(s@.len() as int) =~= fv);
    n
}

fn tag_file(
    found: &Vec<ShellAliasCandidate>,
    file_index: usize,
    display: &str,
    all: &mut Vec<ShellAliasCandidate>,
)
    ensures
        found_views(final(all)@) == found_views(old(all)@) + tagged(
            file_index as nat,
            display@,
            found@.map_values(|c: ShellAliasCandidate| c.spec_entry()),
        ),
{
    let ghost start = found_views(all@);
    let ghost es = found@.map_values(|c: ShellAliasCandidate| c.spec_entry());
    let mut i: usize = 0;
    while i < found.len()
        invariant
            i <= found@.len(),
            es == found@.map_values(|c: ShellAliasCandidate| c.spec_entry()),
            found_views(all@) == start + tagged(file_index as nat, display@, es.take(i as int)),
        decreases found@.len() - i,
    {
        let ghost before = found_views(all@);
        let c = &found[i];
        let mut id: Vec<char> = Vec::new();
        push_str(&mut id, "shell-");
        push_decimal(&mut id, file_index as u64);
        push_str(&mut id, "-line-");
        push_decimal(&mut id, c.line_number as u64);
        assert(id@ =~= home_line_id(file_index as nat, c.line_number as int));
        all.push(
            ShellAliasCandidate {
                id: string_of(&id),
                name: c.name.clone(),
                command: c.command.clone(),
                line_number: c.line_number,
                source_file: owned(display),
            },
        );
        assert(es[i as int] == c.spec_entry());
        assert(tagged(file_index as nat, display@, es.take(i + 1)) =~= tagged(
            file_index as nat,
            display@,
            es.take(i as int),
        ).push(found_view(all@.last())));
        assert(found_views(all@) =~= before.push(found_view(all@.last())));
        i = i + 1;
    }
    assert(es.take(found@.len() as int) =~= es);
}

/// The import candidates of the startup files (see `home_candidates`),
/// numbered `shell-{file}-line-{line}`.
pub fn scan_shell_candidates_in_home(files: &Vec<StartupFile>) -> (r: Result<
    Vec<ShellAliasCandidate>,
    String,
>)
    ensures
        match home_candidates(files@) {
            Err(e) => r is Err && r->Err_0@ == e,
            Ok(v) => r is Ok && found_views(r->Ok_0@) == v,
        },
{
    let mut all: Vec<ShellAliasCandidate> = Vec::new();
    let mut i: usize = 0;
    assert(files@.take(0) =~= Seq::<StartupFile>::empty());
    assert(found_views(all@) =~= Seq::<(Seq<char>, Seq<char>, Seq<char>, int, Seq<char>)>::empty());
    while i < files.len()
        invariant
            i <= files@.len(),
            scanned_files(files@.take(i as int)) == Ok::<
                Seq<(Seq<char>, Seq<char>, Seq<char>, int, Seq<char>)>,
                Seq<char>,
            >(found_views(all@)),
        decreases files@.len() - i,
    {
        assert(files@.take(i + 1).drop_last() =~= files@.take(i as int));
        assert(files@.take(i + 1).last() == files@[i as int]);
        let found = match find_shell_aliases(files[i].content.as_str()) {
            Ok(found) => found,
            Err(e) => {
                proof {
                    lemma_scan_error_stays(files@, i as int + 1, e@);
                }
                return Err(e);
            },
        };
        tag_file(&found, i, files[i].display.as_str(), &mut all);
        i = i + 1;
    }
    assert(files@.take(files@.len() as int) =~= files@);
    let ghost fa = found_views(all@);
    let mut kept: Vec<ShellAliasCandidate> = Vec::new();
    let mut k: usize = 0;
    while k < all.len()
        invariant
            k <= all@.len(),
            fa == found_views(all@),
            found_views(kept@) == unique_found(fa.take(k as int), fa),
        decreases all@.len() - k,
    {
        assert(fa.take(k + 1).drop_last() =~= fa.take(k as int));
        assert(fa.take(k + 1).last() == found_view(all@[k as int]));
        if found_count(&all, &all[k].name) == 1 {
            let ghost before = found_views(kept@);
            let c = ShellAliasCandidate {
                id: all[k].id.clone(),
                name: all[k].name.clone(),
                command: all[k].command.clone(),
                line_number: all[k].line_number,
                source_file: all[k].source_file.clone(),
            };
            kept.push(c);
            assert(found_views(kept@) =~= before.push(found_view(all@[k as int])));
        }
        k = k + 1;
    }
    assert(fa.take(all@.len() as int) =~= fa);
    Ok(kept)
}

/// Once the files up to `m` fail to scan, all of them fail the same way.
proof fn lemma_scan_error_stays(files: Seq<StartupFile>, m: int, e: Seq<char>)
    requires
        0 <= m <= files.len(),
        scanned_files(files.take(m)) == Err::<
            Seq<(Seq<char>, Seq<char>, Seq<char>, int, Seq<char>)>,
            Seq<char>,
        >(e),
    ensures
        scanned_files(files) == Err::<
            Seq<(Seq<char>, Seq<char>, Seq<char>, int, Seq<char>)>,
            Seq<char>,
        >(e),
    decreases files.len() - m,
{
    if m == files.len() {
        assert(files.take(m) =~= files);
    } else {
        assert(files.take(m + 1).drop_last() =~= files.take(m));
        lemma_scan_error_stays(files, m + 1, e);
    }
}

/// The candidates whose name no stored alias has yet.
pub open spec fn not_stored(
    aliases: Seq<AliasEntry>,
    found: Seq<(Seq<char>, Seq<char>, Seq<char>, int, Seq<char>)>,
) -> Seq<(Seq<char>, Seq<char>, Seq<char>, int, Seq<char>)>
    decreases found.len(),
{
    if found.len() == 0 {
        Seq::empty()
    } else {
        let prev = not_stored(aliases, found.drop_last());
        if shell_import::alias_name_taken(aliases, found.last().1) {
            prev
        } else {
            prev.push(found.last())
        }
    }
}

/// The candidates offered for import: those whose name is not an alias yet.
pub fn scan_import_candidates(aliases: &Vec<AliasEntry>, found: Vec<ShellAliasCandidate>) -> (r: Vec<
    ShellAliasCandidate,
>)
    ensures
        found_views(r@) == not_stored(aliases@, found_views(found@)),
{
    let ghost fv = found_views(found@);
    let mut kept: Vec<ShellAliasCandidate> = Vec::new();
    let mut i: usize = 0;
    while i < found.len()
        invariant
            i <= found@.len(),
            fv == found_views(found@),
            found_views(kept@) == not_stored(aliases@, fv.take(i as int)),
        decreases found@.len() - i,
    {
        assert(fv.take(i + 1).drop_last() =~= fv.take(i as int));
        assert(fv.take(i + 1).last() == found_view(found@[i as int]));
        if !has_alias_name(aliases, &found[i].name) {
            let ghost before = found_views(kept@);
            let c = ShellAliasCandidate {
                id: found[i].id.clone(),
                name: found[i].name.clone(),
                command: found[i].command.clone(),
                line_number: found[i].line_number,
                source_file: found[i].source_file.clone(),
            };
            kept.push(c);
            assert(found_views(kept@) =~= before.push(found_view(found@[i as int])));
        }
        i = i + 1;
    }
    assert(fv.take(found@.len() as int) =~= fv);
    kept
}

/// The candidates whose id was chosen, in scan order.
pub open spec fn chosen_found(
    found: Seq<(Seq<char>, Seq<char>, Seq<char>, int, Seq<char>)>,
    ids: Seq<String>,
) -> Seq<(Seq<char>, Seq<char>, Seq<char>, int, Seq<char>)>
    decreases found.len(),
{
    if found.len() == 0 {
        Seq::empty()
    } else {
        let prev = chosen_found(found.drop_last(), ids);
        if automation_store::id_chosen(ids, found.last().0) {
            prev.push(found.last())
        } else {
            prev
        }
    }
}

/// Whether the chosen candidate at `k` has the name of a stored alias or of
/// an earlier chosen one.
pub open spec fn taken_at(
    aliases: Seq<AliasEntry>,
    chosen: Seq<(Seq<char>, Seq<char>, Seq<char>, int, Seq<char>)>,
    k: int,
) -> bool {
    shell_import::alias_name_taken(aliases, chosen[k].1) || exists|j: int|
        0 <= j < k && chosen[j].1 == chosen[k].1
}

/// Whether `k` is the first chosen candidate whose name is taken.
pub open spec fn first_taken_at(
    aliases: Seq<AliasEntry>,
    chosen: Seq<(Seq<char>, Seq<char>, Seq<char>, int, Seq<char>)>,
    k: int,
) -> bool {
    0 <= k < chosen.len() && taken_at(aliases, chosen, k) && forall|j: int|
        0 <= j < k ==> !taken_at(aliases, chosen, j)
}

/// The first chosen candidate whose name is taken.
pub open spec fn first_taken(
    aliases: Seq<AliasEntry>,
    chosen: Seq<(Seq<char>, Seq<char>, Seq<char>, int, Seq<char>)>,
) -> Option<int> {
    if exists|k: int| first_taken_at(aliases, chosen, k) {
        Some(choose|k: int| first_taken_at(aliases, chosen, k))
    } else {
        None
    }
}

proof fn lemma_first_taken(
    aliases: Seq<AliasEntry>,
    chosen: Seq<(Seq<char>, Seq<char>, Seq<char>, int, Seq<char>)>,
    k: int,
)
    requires
        first_taken_at(aliases, chosen, k),
    ensures
        first_taken(aliases, chosen) == Some(k),
{
    let c = choose|k: int| first_taken_at(aliases, chosen, k);
    assert(first_taken_at(aliases, chosen, c));
    if c < k {
        assert(!taken_at(aliases, chosen, c));
    }
    if k < c {
        assert(!taken_at(aliases, chosen, k));
    }
}

/// The stored alias a chosen candidate becomes: a custom command with id
/// `imported-{import id}-{candidate id}`.
pub open spec fn home_imported(
    f: (Seq<char>, Seq<char>, Seq<char>, int, Seq<char>),
    e: AliasEntry,
    import_id: u64,
    timestamp: Seq<char>,
) -> bool {
    &&& e.id@ == "imported-"@ + shell_alias::decimal(import_id as nat) + "-"@ + f.0
    &&& e.name@ == f.1
    &&& e.path@.len() == 0
    &&& e.action@ == "custom"@
    &&& e.custom_command is Some
    &&& e.custom_command->Some_0@ == f.2
    &&& e.command_preview@ == f.2
    &&& !e.favorite
    &&& e.created_at@ == timestamp
    &&& e.updated_at@ == timestamp
}

/// The lines of the file shown as `display` that the chosen candidates
/// stand on, with their names.
pub open spec fn lines_in(
    chosen: Seq<(Seq<char>, Seq<char>, Seq<char>, int, Seq<char>)>,
    display: Seq<char>,
) -> Map<usize, Seq<char>>
    decreases chosen.len(),
{
    if chosen.len() == 0 {
        Map::empty()
    } else {
        let prev = lines_in(chosen.drop_last(), display);
        if chosen.last().4 == display {
            prev.insert(chosen.last().3 as usize, chosen.last().1)
        } else {
            prev
        }
    }
}

/// A startup file after the import: the chosen lines replaced by a marker
/// comment, then the EasyAlias block rewritten with `aliases`.
pub open spec fn rewritten(
    file: StartupFile,
    chosen: Seq<(Seq<char>, Seq<char>, Seq<char>, int, Seq<char>)>,
    aliases: Seq<AliasEntry>,
) -> Result<Seq<char>, Seq<char>> {
    let replaced = text::join(
        shell_alias::replace_selected(
            text::split_on(file.content@, '\n'),
            lines_in(chosen, file.display@),
        ),
        "\n"@,
    );
    match managed_block::without_block(replaced) {
        Err(e) => Err(e),
        Ok(base) => match alias_entry::first_entry_error(aliases) {
            Some(e) => Err(e),
            None => Ok(managed_block::with_block(base, aliases)),
        },
    }
}

/// Every startup file after the import, or the first file's error.
pub open spec fn rewritten_files(
    files: Seq<StartupFile>,
    chosen: Seq<(Seq<char>, Seq<char>, Seq<char>, int, Seq<char>)>,
    aliases: Seq<AliasEntry>,
) -> Result<Seq<Seq<char>>, Seq<char>>
    decreases files.len(),
{
    if files.len() == 0 {
        Ok(Seq::empty())
    } else {
        match rewritten_files(files.drop_last(), chosen, aliases) {
            Err(e) => Err(e),
            Ok(prev) => match rewritten(files.last(), chosen, aliases) {
                Err(e) => Err(e),
                Ok(c) => Ok(prev.push(c)),
            },
        }
    }
}

/// What an import writes: the stored aliases and each startup file's new
/// text (a copy of every file is kept first).
pub struct HomeImportPlan {
    pub aliases: Vec<AliasEntry>,
    pub contents: Vec<String>,
    pub imported_count: usize,
}

fn home_entry(c: &ShellAliasCandidate, import_id: u64, timestamp: &str) -> (r: AliasEntry)
    ensures
        home_imported(found_view(*c), r, import_id, timestamp@),
{
    let mut id: Vec<char> = Vec::new();
    push_str(&mut id, "imported-");
    push_decimal(&mut id, import_id);
    push_str(&mut id, "-");
    push_str(&mut id, c.id.as_str());
    assert(id@ =~= "imported-"@ + shell_alias::decimal(import_id as nat) + "-"@ + c.id@);
    AliasEntry {
        id: string_of(&id),
        name: owned(c.name.as_str()),
        path: String::new(),
        action: owned("custom"),
        custom_command: Some(owned(c.command.as_str())),
        command_preview: owned(c.command.as_str()),
        favorite: false,
        created_at: owned(timestamp),
        updated_at: owned(timestamp),
    }
}

fn rewrite_file(
    file: &StartupFile,
    chosen: &Vec<ShellAliasCandidate>,
    aliases: &Vec<AliasEntry>,
) -> (r: Result<String, String>)
    ensures
        match rewritten(*file, found_views(chosen@), aliases@) {
            Ok(c) => r is Ok && r->Ok_0@ == c,
            Err(e) => r is Err && r->Err_0@ == e,
        },
{
    let ghost ch = found_views(chosen@);
    let mut lines: HashMap<usize, &str> = HashMap::new();
    let mut i: usize = 0;
    while i < chosen.len()
        invariant
            i <= chosen@.len(),
            ch == found_views(chosen@),
            lines@.map_values(|name: &str| name@) == lines_in(ch.take(i as int), file.display@),
        decreases chosen@.len() - i,
    {
        broadcast use vstd::std_specs::hash::group_hash_axioms;

        assert(ch.take(i + 1).drop_last() =~= ch.take(i as int));
        assert(ch.take(i + 1).last() == found_view(chosen@[i as int]));
        if chosen[i].source_file == file.display {
            let ghost before = lines@;
            lines.insert(chosen[i].line_number, chosen[i].name.as_str());
            assert(lines@.map_values(|name: &str| name@) =~= before.map_values(|name: &str| name@).insert(
                chosen@[i as int].line_number,
                chosen@[i as int].name@,
            ));
        }
        i = i + 1;
    }
    assert(ch.take(chosen@.len() as int) =~= ch);
    let replaced = replace_imported_alias_lines(file.content.as_str(), &lines);
    update_managed_block(replaced.as_str(), aliases.as_slice())
}

/// Plans the import of the chosen aliases from all startup files (read
/// through the granted home folder): refused when nothing is chosen, the
/// timestamp is blank, a file's EasyAlias block is malformed, a chosen alias
/// is gone, or a name would exist twice. Otherwise every chosen alias is
/// stored (in name order), its line is replaced by a marker comment, and the
/// EasyAlias block of every file is rewritten; `import_id` (the import's
/// Unix time) keeps the new ids unique.
pub fn import_shell_aliases(
    files: &Vec<StartupFile>,
    aliases: Vec<AliasEntry>,
    selected_ids: &Vec<String>,
    timestamp: &str,
    import_id: u64,
) -> (r: Result<HomeImportPlan, String>)
    ensures
        selected_ids@.len() == 0 ==> r is Err && r->Err_0@ == "Select at least one alias to import."@,
        selected_ids@.len() > 0 && text::trim(timestamp@).len() == 0 ==> r is Err && r->Err_0@
            == "Import timestamp is missing."@,
        selected_ids@.len() > 0 && text::trim(timestamp@).len() > 0 ==> match home_candidates(files@) {
            Err(e) => r is Err && r->Err_0@ == e,
            Ok(found) => {
                let chosen = chosen_found(found, selected_ids@);
                if chosen.len() != automation_store::distinct_ids(selected_ids@) {
                    r is Err && r->Err_0@
                        == "Some aliases changed in the shell files. Reopen Import and try again."@
                } else {
                    match first_taken(aliases@, chosen) {
                        Some(k) => r is Err && r->Err_0@ == "Alias \""@ + chosen[k].1
                            + "\" already exists."@,
                        None => exists|added: Seq<AliasEntry>|
                            {
                                &&& added.len() == chosen.len()
                                &&& forall|i: int|
                                    0 <= i < chosen.len() ==> home_imported(
                                        chosen[i],
                                        #[trigger] added[i],
                                        import_id,
                                        timestamp@,
                                    )
                                &&& match rewritten_files(
                                    files@,
                                    chosen,
                                    order::in_order(aliases@ + added),
                                ) {
                                    Err(e) => r is Err && r->Err_0@ == e,
                                    Ok(contents) => r is Ok && r->Ok_0.aliases@ == order::in_order(
                                        aliases@ + added,
                                    ) && crate::tui_forms::texts(r->Ok_0.contents@) == contents
                                        && r->Ok_0.imported_count == chosen.len(),
                                }
                            },
                    }
                }
            },
        },
{
    if selected_ids.len() == 0 {
        return Err(owned("Select at least one alias to import."));
    }
    if crate::text::is_blank_str(timestamp) {
        return Err(owned("Import timestamp is missing."));
    }
    let distinct = count_distinct(selected_ids);
    let found = match scan_shell_candidates_in_home(files) {
        Ok(found) => found,
        Err(e) => {
            return Err(e);
        },
    };
    let ghost fv = found_views(found@);
    assert(home_candidates(files@) == Ok::<
        Seq<(Seq<char>, Seq<char>, Seq<char>, int, Seq<char>)>,
        Seq<char>,
    >(fv));
    let mut chosen: Vec<ShellAliasCandidate> = Vec::new();
    let mut i: usize = 0;
    while i < found.len()
        invariant
            i <= found@.len(),
            fv == found_views(found@),
            found_views(chosen@) == chosen_found(fv.take(i as int), selected_ids@),
        decreases found@.len() - i,
    {
        assert(fv.take(i + 1).drop_last() =~= fv.take(i as int));
        assert(fv.take(i + 1).last() == found_view(found@[i as int]));
        assert(selected_ids@.take(selected_ids@.len() as int) =~= selected_ids@);
        if is_chosen(selected_ids, found[i].id.as_str(), selected_ids.len()) {
            let ghost before = found_views(chosen@);
            let c = ShellAliasCandidate {
                id: found[i].id.clone(),
                name: found[i].name.clone(),
                command: found[i].command.clone(),
                line_number: found[i].line_number,
                source_file: found[i].source_file.clone(),
            };
            chosen.push(c);
            assert(found_views(chosen@) =~= before.push(found_view(found@[i as int])));
        }
        i = i + 1;
    }
    assert(fv.take(found@.len() as int) =~= fv);
    let ghost ch = found_views(chosen@);
    if chosen.len() != distinct {
        return Err(owned("Some aliases changed in the shell files. Reopen Import and try again."));
    }
    let mut k: usize = 0;
    while k < chosen.len()
        invariant
            k <= chosen@.len(),
            ch == found_views(chosen@),
            selected_ids@.len() > 0,
            text::trim(timestamp@).len() > 0,
            home_candidates(files@) == Ok::<
                Seq<(Seq<char>, Seq<char>, Seq<char>, int, Seq<char>)>,
                Seq<char>,
            >(fv),
            ch == chosen_found(fv, selected_ids@),
            ch.len() == automation_store::distinct_ids(selected_ids@),
            forall|j: int| 0 <= j < k ==> !taken_at(aliases@, ch, j),
        decreases chosen@.len() - k,
    {
        assert(ch[k as int].1 == chosen@[k as int].name@);
        let mut dup = has_alias_name(&aliases, &chosen[k].name);
        let mut j: usize = 0;
        while j < k
            invariant
                j <= k < chosen@.len(),
                ch == found_views(chosen@),
                dup == (shell_import::alias_name_taken(aliases@, ch[k as int].1) || exists|t: int|
                    0 <= t < j && ch[t].1 == ch[k as int].1),
            decreases k - j,
        {
            assert(ch[j as int].1 == chosen@[j as int].name@);
            assert(ch[k as int].1 == chosen@[k as int].name@);
            if chosen[j].name == chosen[k].name {
                dup = true;
            }
            j = j + 1;
        }
        if dup {
            proof {
                lemma_first_taken(aliases@, ch, k as int);
            }
            return Err(concat3("Alias \"", chosen[k].name.as_str(), "\" already exists."));
        }
        k = k + 1;
    }
    assert(first_taken(aliases@, ch) is None) by {
        if exists|k: int| first_taken_at(aliases@, ch, k) {
            let c = choose|k: int| first_taken_at(aliases@, ch, k);
            assert(!taken_at(aliases@, ch, c));
        }
    }
    let mut added: Vec<AliasEntry> = Vec::new();
    let mut t: usize = 0;
    while t < chosen.len()
        invariant
            t <= chosen@.len(),
            ch == found_views(chosen@),
            added@.len() == t,
            forall|q: int|
                0 <= q < t ==> home_imported(ch[q], #[trigger] added@[q], import_id, timestamp@),
        decreases chosen@.len() - t,
    {
        added.push(home_entry(&chosen[t], import_id, timestamp));
        t = t + 1;
    }
    let ghost ad = added@;
    let mut all = aliases;
    all.append(&mut added);
    sort_in_order(&mut all);
    let mut contents: Vec<String> = Vec::new();
    let mut f: usize = 0;
    assert(files@.take(0) =~= Seq::<StartupFile>::empty());
    assert(crate::tui_forms::texts(contents@) =~= Seq::<Seq<char>>::empty());
    while f < files.len()
        invariant
            f <= files@.len(),
            ch == found_views(chosen@),
            selected_ids@.len() > 0,
            text::trim(timestamp@).len() > 0,
            home_candidates(files@) == Ok::<
                Seq<(Seq<char>, Seq<char>, Seq<char>, int, Seq<char>)>,
                Seq<char>,
            >(fv),
            ch == chosen_found(fv, selected_ids@),
            ch.len() == automation_store::distinct_ids(selected_ids@),
            first_taken(aliases@, ch) is None,
            ad.len() == ch.len(),
            forall|q: int| 0 <= q < ch.len() ==> home_imported(ch[q], #[trigger] ad[q], import_id, timestamp@),
            all@ == order::in_order(aliases@ + ad),
            rewritten_files(files@.take(f as int), ch, all@) == Ok::<Seq<Seq<char>>, Seq<char>>(
                crate::tui_forms::texts(contents@),
            ),
        decreases files@.len() - f,
    {
        assert(files@.take(f + 1).drop_last() =~= files@.take(f as int));
        assert(files@.take(f + 1).last() == files@[f as int]);
        match rewrite_file(&files[f], &chosen, &all) {
            Ok(c) => {
                let ghost before = crate::tui_forms::texts(contents@);
                contents.push(c);
                assert(crate::tui_forms::texts(contents@) =~= before.push(contents@.last()@));
            },
            Err(e) => {
                proof {
                    lemma_rewrite_error_stays(files@, ch, all@, f as int + 1, e@);
                }
                return Err(e);
            },
        }
        f = f + 1;
    }
    assert(files@.take(files@.len() as int) =~= files@);
    let imported_count = chosen.len();
    Ok(HomeImportPlan { aliases: all, contents, imported_count })
}

proof fn lemma_rewrite_error_stays(
    files: Seq<StartupFile>,
    chosen: Seq<(Seq<char>, Seq<char>, Seq<char>, int, Seq<char>)>,
    aliases: Seq<AliasEntry>,
    m: int,
    e: Seq<char>,
)
    requires
        0 <= m <= files.len(),
        rewritten_files(files.take(m), chosen, aliases) == Err::<Seq<Seq<char>>, Seq<char>>(e),
    ensures
        rewritten_files(files, chosen, aliases) == Err::<Seq<Seq<char>>, Seq<char>>(e),
    decreases files.len() - m,
{
    if m == files.len() {
        assert(files.take(m) =~= files);
    } else {
        assert(files.take(m + 1).drop_last() =~= files.take(m));
        lemma_rewrite_error_stays(files, chosen, aliases, m + 1, e);
    }
}

/// Every startup file with its EasyAlias block rewritten for `aliases`, or
/// the first file's error.
pub open spec fn managed_updates(files: Seq<StartupFile>, aliases: Seq<AliasEntry>) -> Result<
    Seq<Seq<char>>,
    Seq<char>,
>
    decreases files.len(),
{
    if files.len() == 0 {
        Ok(Seq::empty())
    } else {
        match managed_updates(files.drop_last(), aliases) {
            Err(e) => Err(e),
            Ok(prev) => match managed_block::without_block(files.last().content@) {
                Err(e) => Err(e),
                Ok(base) => match alias_entry::first_entry_error(aliases) {
                    Some(e) => Err(e),
                    None => Ok(prev.push(managed_block::with_block(base, aliases))),
                },
            },
        }
    }
}

proof fn lemma_update_error_stays(files: Seq<StartupFile>, aliases: Seq<AliasEntry>, m: int, e: Seq<char>)
    requires
        0 <= m <= files.len(),
        managed_updates(files.take(m), aliases) == Err::<Seq<Seq<char>>, Seq<char>>(e),
    ensures
        managed_updates(files, aliases) == Err::<Seq<Seq<char>>, Seq<char>>(e),
    decreases files.len() - m,
{
    if m == files.len() {
        assert(files.take(m) =~= files);
    } else {
        assert(files.take(m + 1).drop_last() =~= files.take(m));
        lemma_update_error_stays(files, aliases, m + 1, e);
    }
}

/// The new text of every startup file once the aliases changed: each file's
/// EasyAlias block rewritten (see `managed_updates`).
pub fn prepare_managed_shell_updates(files: &Vec<StartupFile>, aliases: &[AliasEntry]) -> (r: Result<
    Vec<String>,
    String,
>)
    ensures
        match managed_updates(files@, aliases@) {
            Err(e) => r is Err && r->Err_0@ == e,
            Ok(contents) => r is Ok && crate::tui_forms::texts(r->Ok_0@) == contents,
        },
{
    let mut contents: Vec<String> = Vec::new();
    let mut f: usize = 0;
    assert(files@.take(0) =~= Seq::<StartupFile>::empty());
    assert(crate::tui_forms::texts(contents@) =~= Seq::<Seq<char>>::empty());
    while f < files.len()
        invariant
            f <= files@.len(),
            managed_updates(files@.take(f as int), aliases@) == Ok::<Seq<Seq<char>>, Seq<char>>(
                crate::tui_forms::texts(contents@),
            ),
        decreases files@.len() - f,
    {
        assert(files@.take(f + 1).drop_last() =~= files@.take(f as int));
        assert(files@.take(f + 1).last() == files@[f as int]);
        match update_managed_block(files[f].content.as_str(), aliases) {
            Ok(c) => {
                let ghost before = crate::tui_forms::texts(contents@);
                contents.push(c);
                assert(crate::tui_forms::texts(contents@) =~= before.push(contents@.last()@));
            },
            Err(e) => {
                proof {
                    lemma_update_error_stays(files@, aliases@, f as int + 1, e@);
                }
                return Err(e);
            },
        }
        f = f + 1;
    }
    assert(files@.take(files@.len() as int) =~= files@);
    Ok(contents)
}

/// `s` without the `c` characters at its start.
pub open spec fn trim_start_char(s: Seq<char>, c: char) -> Seq<char>
    decreases s.len(),
{
    if s.len() > 0 && s[0] == c {
        trim_start_char(s.drop_first(), c)
    } else {
        s
    }
}

/// The name of the `k`-th candidate copy of a startup file made at `stamp`:
/// the file's name without leading dots, the time, then `-{k}` after the
/// first, and `.backup`.
pub open spec fn home_backup_name(file_name: Seq<char>, stamp: u64, k: nat) -> Seq<char> {
    let base = trim_start_char(file_name, '.') + "-"@ + shell_alias::decimal(stamp as nat);
    if k == 0 {
        base + ".backup"@
    } else {
        base + "-"@ + shell_alias::decimal(k) + ".backup"@
    }
}

/// The `k`-th candidate name for the copy of the startup file `file_name`.
pub fn home_backup_file_name(file_name: &str, stamp: u64, k: u64) -> (r: String)
    ensures
        r@ == home_backup_name(file_name@, stamp, k as nat),
{
    let s = crate::text::chars_of(file_name);
    let mut i: usize = 0;
    assert(s@.skip(0) =~= s@);
    while i < s.len() && s[i] == '.'
        invariant
            i <= s@.len(),
            trim_start_char(s@, '.') == trim_start_char(s@.skip(i as int), '.'),
        decreases s@.len() - i,
    {
        assert(s@.skip(i as int).drop_first() =~= s@.skip(i + 1));
        i = i + 1;
    }
    let mut v = crate::text::slice_chars(&s, i, s.len());
    assert(v@ =~= s@.skip(i as int));
    push_str(&mut v, "-");
    push_decimal(&mut v, stamp);
    if k > 0 {
        push_str(&mut v, "-");
        push_decimal(&mut v, k);
    }
    push_str(&mut v, ".backup");
    string_of(&v)
}

} // verus!
