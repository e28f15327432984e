//! What the terminal edition shows about the Linux shell: the commands an
//! alias runs, the connection line and the texts of the import dialog.

use vstd::prelude::*;
use crate::text;
use crate::shell_alias;
use crate::text::{chars_of, push_str, string_of, trim_chars};
use crate::message::{concat2, concat3, owned, str_eq};
use crate::shell_alias::push_decimal;
use crate::shell_import::{AppState, SOURCE_LINE};

verus! {

/// A character that must be escaped inside a double-quoted shell string.
pub open spec fn needs_escape(c: char) -> bool {
    c == '\\' || c == '"' || c == '`' || c == '$'
}

/// The text with `\`, `"`, `` ` `` and `$` each preceded by a backslash.
pub open spec fn escaped(s: Seq<char>) -> Seq<char>
    decreases s.len(),
{
    if s.len() == 0 {
        Seq::empty()
    } else if needs_escape(s.last()) {
        escaped(s.drop_last()) + seq!['\\', s.last()]
    } else {
        escaped(s.drop_last()).push(s.last())
    }
}

fn push_escaped(v: &mut Vec<char>, s: &Vec<char>, from: usize)
    requires
        from <= s@.len(),
    ensures
        final(v)@ == old(v)@ + escaped(s@.subrange(from as int, s@.len() as int)),
{
    let ghost start = v@;
    let mut i: usize = from;
    assert(s@.subrange(from as int, from as int) =~= Seq::<char>::empty());
    while i < s.len()
        invariant
            from <= i <= s@.len(),
            v@ == start + escaped(s@.subrange(from as int, i as int)),
        decreases s@.len() - i,
    {
        let c = s[i];
        assert(s@.subrange(from as int, i + 1).drop_last() =~= s@.subrange(from as int, i as int));
        if c == '\\' || c == '"' || c == '`' || c == '$' {
            v.push('\\');
        }
        v.push(c);
        assert(v@ =~= start + escaped(s@.subrange(from as int, i + 1)));
        i = i + 1;
    }
}

/// Escapes the characters that can break a double-quoted shell string.
pub fn escape_double_quoted(value: &str) -> (r: String)
    ensures
        r@ == escaped(value@),
{
    let s = chars_of(value);
    let mut v: Vec<char> = Vec::new();
    push_escaped(&mut v, &s, 0);
    assert(s@.subrange(0, s@.len() as int) =~= s@);
    string_of(&v)
}

/// A path as a quoted shell argument: blank stays empty, `~` and `~/...`
/// become `$HOME` so generated aliases keep working.
pub open spec fn quoted_path(path: Seq<char>) -> Seq<char> {
    let t = text::trim(path);
    if t.len() == 0 {
        Seq::empty()
    } else if t == "~"@ {
        "\"$HOME\""@
    } else if text::starts_with(t, "~/"@) {
        "\"$HOME/"@ + escaped(t.subrange(2, t.len() as int)) + "\""@
    } else {
        "\""@ + escaped(t) + "\""@
    }
}

/// Turns a user-entered path into a safe bash/zsh argument.
pub fn shell_path(path: &str) -> (r: String)
    ensures
        r@ == quoted_path(path@),
{
    let t = trim_chars(&chars_of(path));
    if t.len() == 0 {
        return String::new();
    }
    proof {
        reveal_strlit("~");
        reveal_strlit("~/");
        reveal_strlit("\"$HOME\"");
        reveal_strlit("\"$HOME/");
        reveal_strlit("\"");
    }
    if t.len() == 1 && t[0] == '~' {
        assert(t@ =~= "~"@);
        return owned("\"$HOME\"");
    }
    let mut v: Vec<char> = Vec::new();
    if t.len() >= 2 && t[0] == '~' && t[1] == '/' {
        assert(text::starts_with(t@, "~/"@)) by {
            assert(t@.take(2) =~= "~/"@);
        }
        push_str(&mut v, "\"$HOME/");
        push_escaped(&mut v, &t, 2);
        push_str(&mut v, "\"");
        assert(t@ != "~"@);
        assert(v@ =~= quoted_path(path@));
        return string_of(&v);
    }
    assert(!text::starts_with(t@, "~/"@)) by {
        if t@.len() >= 2 {
            assert(t@.take(2)[0] == t@[0]);
            assert(t@.take(2)[1] == t@[1]);
        }
    }
    assert(t@ != "~"@) by {
        if t@.len() == 1 {
            assert(t@[0] != "~"@[0]);
        }
    }
    push_str(&mut v, "\"");
    push_escaped(&mut v, &t, 0);
    assert(t@.subrange(0, t@.len() as int) =~= t@);
    push_str(&mut v, "\"");
    assert(v@ =~= quoted_path(path@));
    string_of(&v)
}

/// The command an alias runs, for each action (the same rules as the desktop
/// app); an action that needs a path gives nothing without one.
pub open spec fn command_for(action: Seq<char>, path: Seq<char>, custom: Seq<char>) -> Seq<char> {
    let p = quoted_path(path);
    if action == "custom"@ {
        text::trim(custom)
    } else if action == "execute"@ {
        p
    } else if p.len() == 0 {
        Seq::empty()
    } else if action == "navigate"@ {
        "cd "@ + p
    } else if action == "open"@ {
        "xdg-open "@ + p
    } else if action == "compile_gradle"@ {
        "cd "@ + p + " && ./gradlew build"@
    } else if action == "compile_maven"@ {
        "cd "@ + p + " && mvn clean package"@
    } else {
        Seq::empty()
    }
}

/// The shell command written for an alias with the given action.
pub fn preview_command(action: &str, path: &str, custom_command: &str) -> (r: String)
    ensures
        r@ == command_for(action@, path@, custom_command@),
{
    if str_eq(action, "custom") {
        let t = trim_chars(&chars_of(custom_command));
        return string_of(&t);
    }
    let p = shell_path(path);
    if str_eq(action, "execute") {
        return p;
    }
    if p.as_str().unicode_len() == 0 {
        return String::new();
    }
    if str_eq(action, "navigate") {
        concat2("cd ", p.as_str())
    } else if str_eq(action, "open") {
        concat2("xdg-open ", p.as_str())
    } else if str_eq(action, "compile_gradle") {
        concat3("cd ", p.as_str(), " && ./gradlew build")
    } else if str_eq(action, "compile_maven") {
        concat3("cd ", p.as_str(), " && mvn clean package")
    } else {
        String::new()
    }
}

/// How the generated alias reads: `alias name='command'`.
pub fn preview_line(name: &str, command: &str) -> (r: String)
    ensures
        r@ == "alias "@ + name@ + "='"@ + command@ + "'"@,
{
    let mut v: Vec<char> = Vec::new();
    push_str(&mut v, "alias ");
    push_str(&mut v, name);
    push_str(&mut v, "='");
    push_str(&mut v, command);
    push_str(&mut v, "'");
    assert(v@ =~= "alias "@ + name@ + "='"@ + command@ + "'"@);
    string_of(&v)
}

/// Alias names are case-sensitive in bash and zsh.
pub fn same_alias_name(left: &str, right: &str) -> (r: bool)
    ensures
        r == (left@ == right@),
{
    str_eq(left, right)
}

/// The state shown before anything was loaded.
pub fn empty_app_state() -> (r: AppState)
    ensures
        r.aliases@.len() == 0,
        r.config_file@ == "~/.easyalias/config.json"@,
        r.aliases_file@ == "~/.easyalias/aliases.sh"@,
        r.source_line@ == SOURCE_LINE@,
        r.shell_name@ == "bash"@,
        r.shell_config_file@ == "~/.bashrc"@,
        !r.shell_source_present,
        r.import_candidates@.len() == 0,
{
    AppState {
        aliases: Vec::new(),
        config_file: owned("~/.easyalias/config.json"),
        aliases_file: owned("~/.easyalias/aliases.sh"),
        source_line: owned(SOURCE_LINE),
        shell_name: owned("bash"),
        shell_config_file: owned("~/.bashrc"),
        shell_source_present: false,
        import_candidates: Vec::new(),
    }
}

/// The line above the alias list: whether the shell is connected, and what
/// to read.
pub fn status_line(state: &AppState) -> (r: (bool, String))
    ensures
        r.0 == state.shell_source_present,
        state.shell_source_present ==> r.1@ == state.shell_name@ + " connected · "@
            + state.shell_config_file@,
        !state.shell_source_present ==> r.1@ == "Add `"@ + state.source_line@ + "` to "@
            + state.shell_config_file@,
{
    if state.shell_source_present {
        (true, concat3(state.shell_name.as_str(), " connected · ", state.shell_config_file.as_str()))
    } else {
        let mut v: Vec<char> = Vec::new();
        push_str(&mut v, "Add `");
        push_str(&mut v, state.source_line.as_str());
        push_str(&mut v, "` to ");
        push_str(&mut v, state.shell_config_file.as_str());
        assert(v@ =~= "Add `"@ + state.source_line@ + "` to "@ + state.shell_config_file@);
        (false, string_of(&v))
    }
}

/// The notice after a save.
pub fn saved_notice(state: &AppState) -> (r: String)
    ensures
        r@ == "Saved: "@ + state.aliases_file@,
{
    concat2("Saved: ", state.aliases_file.as_str())
}

/// The rows of the About screen: where the data, the generated file and the
/// shell file live.
pub fn about_rows(state: &AppState) -> (r: Vec<(&'static str, String)>)
    ensures
        r@.len() == 3,
        r@[0].0@ == "Aliases data"@ && r@[0].1@ == state.config_file@,
        r@[1].0@ == "Generated file"@ && r@[1].1@ == state.aliases_file@,
        r@[2].0@ == "Shell file"@ && r@[2].1@ == state.shell_config_file@,
{
    let mut rows: Vec<(&'static str, String)> = Vec::new();
    rows.push(("Aliases data", owned(state.config_file.as_str())));
    rows.push(("Generated file", owned(state.aliases_file.as_str())));
    rows.push(("Shell file", owned(state.shell_config_file.as_str())));
    rows
}

/// One row of the import dialog.
pub struct ImportCandidate {
    pub id: String,
    pub name: String,
    pub detail: String,
}

/// The title of the import dialog.
pub const IMPORT_TITLE: &'static str = "Import existing aliases";

/// The rows of the import dialog: each alias with its command and line.
pub fn import_candidates(state: &AppState) -> (r: Vec<ImportCandidate>)
    ensures
        r@.len() == state.import_candidates@.len(),
        forall|i: int|
            0 <= i < r@.len() ==> (#[trigger] r@[i]).id@ == state.import_candidates@[i].id@
                && r@[i].name@ == state.import_candidates@[i].name@ && r@[i].detail@
                == state.import_candidates@[i].command@ + "   (line "@ + shell_alias::decimal(
                state.import_candidates@[i].line_number as nat,
            ) + ")"@,
{
    let mut rows: Vec<ImportCandidate> = Vec::new();
    let mut i: usize = 0;
    while i < state.import_candidates.len()
        invariant
            i <= state.import_candidates@.len(),
            rows@.len() == i,
            forall|k: int|
                0 <= k < i ==> (#[trigger] rows@[k]).id@ == state.import_candidates@[k].id@
                    && rows@[k].name@ == state.import_candidates@[k].name@ && rows@[k].detail@
                    == state.import_candidates@[k].command@ + "   (line "@ + shell_alias::decimal(
                    state.import_candidates@[k].line_number as nat,
                ) + ")"@,
        decreases state.import_candidates@.len() - i,
    {
        let c = &state.import_candidates[i];
        let mut d: Vec<char> = Vec::new();
        push_str(&mut d, c.command.as_str());
        push_str(&mut d, "   (line ");
        push_decimal(&mut d, c.line_number as u64);
        push_str(&mut d, ")");
        assert(d@ =~= c.command@ + "   (line "@ + shell_alias::decimal(c.line_number as nat) + ")"@);
        rows.push(
            ImportCandidate { id: owned(c.id.as_str()), name: owned(c.name.as_str()), detail: string_of(&d) },
        );
        i = i + 1;
    }
    rows
}

/// The introduction of the import dialog.
pub fn import_intro(state: &AppState, count: usize) -> (r: String)
    ensures
        r@ == "Found "@ + shell_alias::decimal(count as nat) + " alias"@ + (if count == 1 {
            ""@
        } else {
            "es"@
        }) + " in "@ + state.shell_config_file@
            + ". Imported lines are commented out there - a backup of the file is written first."@,
{
    let mut v: Vec<char> = Vec::new();
    push_str(&mut v, "Found ");
    push_decimal(&mut v, count as u64);
    push_str(&mut v, " alias");
    let ghost before = v@;
    if count == 1 {
        push_str(&mut v, "");
    } else {
        push_str(&mut v, "es");
    }
    push_str(&mut v, " in ");
    push_str(&mut v, state.shell_config_file.as_str());
    push_str(
        &mut v,
        ". Imported lines are commented out there - a backup of the file is written first.",
    );
    assert(v@ =~= "Found "@ + shell_alias::decimal(count as nat) + " alias"@ + (if count == 1 {
        ""@
    } else {
        "es"@
    }) + " in "@ + state.shell_config_file@
        + ". Imported lines are commented out there - a backup of the file is written first."@);
    string_of(&v)
}

/// The notice when the startup file holds nothing new to import.
pub fn nothing_to_import(state: &AppState) -> (r: String)
    ensures
        r@ == "No new aliases found in "@ + state.shell_config_file@ + "."@,
{
    concat3("No new aliases found in ", state.shell_config_file.as_str(), ".")
}

} // verus!
