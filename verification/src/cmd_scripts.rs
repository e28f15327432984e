//! The Windows edition: aliases become `.cmd` files in a folder on the user
//! PATH. Here are the commands those files run, how earlier hand-written
//! command files are read for import, and how PATH entries are compared.

use vstd::prelude::*;
use crate::text;
use crate::text::{chars_of, contains_chars, eq_chars, lines_chars, lower_ascii_chars, push_all, push_str, slice_chars, split_chars, starts_with_chars, string_of, trim_chars};
use crate::message::{concat2, concat3, owned, str_eq};
use crate::alias_entry;
use crate::shell_alias;
use crate::tui_forms;
use crate::command_import;
use crate::alias_entry::{validate_alias_entry, AliasEntry};
use crate::command_import::{folded_taken, last_dot};

verus! {

/// How a line of a command file is treated on import.
pub enum LineKind {
    /// Blank lines, `echo off`, and `rem` / `::` comments.
    Skip,
    /// Syntax that depends on the file's own location or labels.
    Reject,
    /// A command line, without a leading `@`.
    Command(Seq<char>),
}

/// The line without surrounding whitespace and without one leading `@`.
pub open spec fn without_at(line: Seq<char>) -> Seq<char> {
    let t = text::trim(line);
    if t.len() > 0 && t[0] == '@' {
        text::trim(t.drop_first())
    } else {
        t
    }
}

/// How one line of a command file is treated.
pub open spec fn classify_line(line: Seq<char>) -> LineKind {
    let w = without_at(line);
    let lower = text::ascii_lower_seq(w);
    if text::trim(line).len() == 0 {
        LineKind::Skip
    } else if lower == "echo off"@ || text::starts_with(lower, "rem "@) || lower == "rem"@
        || text::starts_with(w, "::"@) {
        LineKind::Skip
    } else if text::starts_with(w, ":"@) || lower == "setlocal"@ || lower == "endlocal"@
        || text::contains(lower, "%~dp0"@) || text::contains(lower, "%~f0"@) || text::contains(
        lower,
        "%0"@,
    ) {
        LineKind::Reject
    } else {
        LineKind::Command(w)
    }
}

/// Reading the lines in order: `None` once the file is refused, otherwise
/// the one command seen so far, if any.
pub open spec fn scan_lines(ls: Seq<Seq<char>>) -> Option<Option<Seq<char>>>
    decreases ls.len(),
{
    if ls.len() == 0 {
        Some(None)
    } else {
        match scan_lines(ls.drop_last()) {
            None => None,
            Some(seen) => match classify_line(ls.last()) {
                LineKind::Skip => Some(seen),
                LineKind::Reject => None,
                LineKind::Command(c) => if seen is Some {
                    None
                } else {
                    Some(Some(c))
                },
            },
        }
    }
}

/// The one command of a simple command file, if it has exactly one that
/// is not blank.
pub open spec fn legacy_command(content: Seq<char>) -> Option<Seq<char>> {
    match scan_lines(text::lines(content)) {
        Some(Some(c)) => if text::trim(c).len() > 0 {
            Some(c)
        } else {
            None
        },
        _ => None,
    }
}

proof fn lemma_scan_rejected(ls: Seq<Seq<char>>, k: int)
    requires
        0 <= k <= ls.len(),
        scan_lines(ls.take(k)) is None,
    ensures
        scan_lines(ls) is None,
    decreases ls.len() - k,
{
    if k < ls.len() {
        assert(ls.take(k + 1).drop_last() =~= ls.take(k));
        lemma_scan_rejected(ls, k + 1);
    } else {
        assert(ls.take(k) =~= ls);
    }
}

fn classify(line: &Vec<char>) -> (r: (u8, Vec<char>))
    ensures
        match classify_line(line@) {
            LineKind::Skip => r.0 == 0,
            LineKind::Reject => r.0 == 1,
            LineKind::Command(c) => r.0 == 2 && r.1@ == c,
        },
{
    let t = trim_chars(line);
    if t.len() == 0 {
        return (0, Vec::new());
    }
    let w = if t[0] == '@' {
        let rest = slice_chars(&t, 1, t.len());
        assert(rest@ =~= t@.drop_first());
        trim_chars(&rest)
    } else {
        t
    };
    let lower = lower_ascii_chars(&w);
    proof {
        reveal_strlit("echo off");
        reveal_strlit("rem ");
        reveal_strlit("rem");
        reveal_strlit("::");
        reveal_strlit(":");
        reveal_strlit("setlocal");
        reveal_strlit("endlocal");
    }
    if eq_chars(&lower, &chars_of("echo off")) || starts_with_chars(&lower, &chars_of("rem "))
        || eq_chars(&lower, &chars_of("rem")) || starts_with_chars(&w, &chars_of("::")) {
        return (0, Vec::new());
    }
    if starts_with_chars(&w, &chars_of(":")) || eq_chars(&lower, &chars_of("setlocal")) || eq_chars(
        &lower,
        &chars_of("endlocal"),
    ) || contains_chars(&lower, &chars_of("%~dp0")) || contains_chars(&lower, &chars_of("%~f0"))
        || contains_chars(&lower, &chars_of("%0")) {
        return (1, Vec::new());
    }
    (2, w)
}

/// Reads a hand-written command file for import: it must hold exactly one
/// command; `echo off`, blank lines and comments are ignored, and syntax
/// that depends on the file's own location or labels makes it unsuitable.
pub fn parse_legacy_command_script(content: &str) -> (r: Option<String>)
    ensures
        match legacy_command(content@) {
            Some(c) => r is Some && r->Some_0@ == c,
            None => r is None,
        },
{
    let s = chars_of(content);
    let ls = lines_chars(&s);
    let ghost lv = text::lines(content@);
    let mut command: Option<Vec<char>> = None;
    let mut i: usize = 0;
    while i < ls.len()
        invariant
            i <= ls@.len(),
            ls@.map_values(|l: Vec<char>| l@) == lv,
            lv == text::lines(content@),
            scan_lines(lv.take(i as int)) matches Some(seen) && match seen {
                Some(c) => command is Some && command->Some_0@ == c,
                None => command is None,
            },
        decreases ls@.len() - i,
    {
        assert(lv.take(i + 1).drop_last() =~= lv.take(i as int));
        assert(lv.take(i + 1).last() == ls@[i as int]@);
        let (kind, w) = classify(&ls[i]);
        if kind == 1 {
            proof {
                lemma_scan_rejected(lv, i + 1);
            }
            return None;
        }
        if kind == 2 {
            if command.is_some() {
                proof {
                    lemma_scan_rejected(lv, i + 1);
                }
                return None;
            }
            command = Some(w);
        }
        i = i + 1;
    }
    assert(lv.take(ls@.len() as int) =~= lv);
    match command {
        Some(c) => {
            let t = trim_chars(&c);
            if t.len() == 0 {
                None
            } else {
                Some(string_of(&c))
            }
        },
        None => None,
    }
}

/// The text with `%` doubled and `"` doubled, as a double-quoted cmd.exe
/// argument needs.
pub open spec fn cmd_escaped(s: Seq<char>) -> Seq<char>
    decreases s.len(),
{
    if s.len() == 0 {
        Seq::empty()
    } else if s.last() == '%' || s.last() == '"' {
        cmd_escaped(s.drop_last()) + seq![s.last(), s.last()]
    } else {
        cmd_escaped(s.drop_last()).push(s.last())
    }
}

fn push_cmd_escaped(v: &mut Vec<char>, s: &Vec<char>)
    ensures
        final(v)@ == old(v)@ + cmd_escaped(s@),
{
    let ghost start = v@;
    let mut i: usize = 0;
    while i < s.len()
        invariant
            i <= s@.len(),
            v@ == start + cmd_escaped(s@.take(i as int)),
        decreases s@.len() - i,
    {
        let c = s[i];
        assert(s@.take(i + 1).drop_last() =~= s@.take(i as int));
        if c == '%' || c == '"' {
            v.push(c);
        }
        v.push(c);
        assert(v@ =~= start + cmd_escaped(s@.take(i + 1)));
        i = i + 1;
    }
    assert(s@.take(s@.len() as int) =~= s@);
}

/// Escapes a value for a double-quoted cmd.exe argument: `%` would expand
/// variables and `"` would end the quote.
pub fn escape_cmd_double_quoted(value: &str) -> (r: String)
    ensures
        r@ == cmd_escaped(value@),
{
    let mut v: Vec<char> = Vec::new();
    push_cmd_escaped(&mut v, &chars_of(value));
    string_of(&v)
}

/// The text with every `/` turned into `\`.
pub open spec fn backslashed(s: Seq<char>) -> Seq<char> {
    s.map_values(|c: char| if c == '/' {
        '\\'
    } else {
        c
    })
}

/// A path as a quoted cmd.exe argument: blank stays empty, `~` and `~/...`
/// (or `~\...`) start at `%USERPROFILE%`.
pub open spec fn cmd_quoted_path(path: Seq<char>) -> Seq<char> {
    let t = text::trim(path);
    if t.len() == 0 {
        Seq::empty()
    } else if t == "~"@ {
        "\"%USERPROFILE%\""@
    } else if text::starts_with(t, "~/"@) || text::starts_with(t, "~\\"@) {
        "\"%USERPROFILE%\\"@ + cmd_escaped(backslashed(t.subrange(2, t.len() as int))) + "\""@
    } else {
        "\""@ + cmd_escaped(t) + "\""@
    }
}

/// Turns an app path into a cmd.exe argument.
pub fn cmd_path(path: &str) -> (r: String)
    ensures
        r@ == cmd_quoted_path(path@),
{
    let t = trim_chars(&chars_of(path));
    if t.len() == 0 {
        return String::new();
    }
    proof {
        reveal_strlit("~");
        reveal_strlit("~/");
        reveal_strlit("~\\");
    }
    if t.len() == 1 && t[0] == '~' {
        assert(t@ =~= "~"@);
        return owned("\"%USERPROFILE%\"");
    }
    assert(t@ != "~"@) by {
        if t@.len() == 1 {
            assert(t@[0] != "~"@[0]);
        }
    }
    let mut v: Vec<char> = Vec::new();
    if t.len() >= 2 && t[0] == '~' && (t[1] == '/' || t[1] == '\\') {
        assert(text::starts_with(t@, "~/"@) || text::starts_with(t@, "~\\"@)) by {
            assert(t@.take(2) =~= seq!['~', t@[1]]);
            if t@[1] == '/' {
                assert(t@.take(2) =~= "~/"@);
            } else {
                assert(t@.take(2) =~= "~\\"@);
            }
        }
        let mut rest: Vec<char> = Vec::new();
        let mut i: usize = 2;
        while i < t.len()
            invariant
                2 <= i <= t@.len(),
                rest@ == backslashed(t@.subrange(2, i as int)),
            decreases t@.len() - i,
        {
            let c = t[i];
            rest.push(if c == '/' {
                '\\'
            } else {
                c
            });
            assert(backslashed(t@.subrange(2, i + 1)) =~= backslashed(t@.subrange(2, i as int)).push(
                if c == '/' {
                    '\\'
                } else {
                    c
                },
            ));
            i = i + 1;
        }
        push_str(&mut v, "\"%USERPROFILE%\\");
        push_cmd_escaped(&mut v, &rest);
        push_str(&mut v, "\"");
        assert(v@ =~= cmd_quoted_path(path@));
        return string_of(&v);
    }
    assert(!(text::starts_with(t@, "~/"@) || text::starts_with(t@, "~\\"@))) by {
        if t@.len() >= 2 {
            assert(t@.take(2)[0] == t@[0]);
            assert(t@.take(2)[1] == t@[1]);
        }
    }
    push_str(&mut v, "\"");
    push_cmd_escaped(&mut v, &t);
    push_str(&mut v, "\"");
    assert(v@ =~= cmd_quoted_path(path@));
    string_of(&v)
}

/// The command a `.cmd` alias file runs, rebuilt from the alias's fields so
/// older entries move to cmd.exe syntax; an action that needs a path gives
/// nothing without one.
pub open spec fn cmd_command(alias: AliasEntry) -> Seq<char> {
    let p = cmd_quoted_path(alias.path@);
    let a = alias.action@;
    if a == "custom"@ {
        match alias.custom_command {
            Some(c) => text::trim(c@),
            None => text::trim(alias.command_preview@),
        }
    } else if a != "navigate"@ && a != "open"@ && a != "execute"@ && a != "compile_gradle"@ && a
        != "compile_maven"@ {
        text::trim(alias.command_preview@)
    } else if p.len() == 0 {
        Seq::empty()
    } else if a == "navigate"@ {
        "cd /d "@ + p
    } else if a == "open"@ {
        "start \"\" "@ + p
    } else if a == "execute"@ {
        "call "@ + p + " %*"@
    } else if a == "compile_gradle"@ {
        "cd /d "@ + p + " && call gradlew.bat build"@
    } else {
        "cd /d "@ + p + " && call mvn clean package"@
    }
}

proof fn lemma_action_names_differ()
    ensures
        "custom"@ != "navigate"@,
        "custom"@ != "open"@,
        "custom"@ != "execute"@,
        "custom"@ != "compile_gradle"@,
        "custom"@ != "compile_maven"@,
        "navigate"@ != "open"@,
        "navigate"@ != "execute"@,
        "navigate"@ != "compile_gradle"@,
        "navigate"@ != "compile_maven"@,
        "open"@ != "execute"@,
        "open"@ != "compile_gradle"@,
        "open"@ != "compile_maven"@,
        "execute"@ != "compile_gradle"@,
        "execute"@ != "compile_maven"@,
        "compile_gradle"@ != "compile_maven"@,
{
    reveal_strlit("custom");
    reveal_strlit("navigate");
    reveal_strlit("open");
    reveal_strlit("execute");
    reveal_strlit("compile_gradle");
    reveal_strlit("compile_maven");
    assert("custom"@.len() != "navigate"@.len());
    assert("custom"@[0] != "open"@[0]);
    assert("custom"@.len() != "execute"@.len());
    assert("custom"@.len() != "compile_gradle"@.len());
    assert("custom"@.len() != "compile_maven"@.len());
    assert("navigate"@.len() != "open"@.len());
    assert("navigate"@.len() != "execute"@.len());
    assert("navigate"@.len() != "compile_gradle"@.len());
    assert("navigate"@.len() != "compile_maven"@.len());
    assert("open"@.len() != "execute"@.len());
    assert("open"@.len() != "compile_gradle"@.len());
    assert("open"@.len() != "compile_maven"@.len());
    assert("execute"@.len() != "compile_gradle"@.len());
    assert("execute"@.len() != "compile_maven"@.len());
    assert("compile_gradle"@.len() != "compile_maven"@.len());
}

/// For the actions that act on the alias's path, the cmd.exe command is
/// built around the quoted path: `cd /d` into it, `start` it, `call` it
/// with the alias's arguments, or `cd /d` into it and run the Gradle
/// wrapper or Maven there. A blank path gives no command.
pub proof fn lemma_path_action_commands(alias: AliasEntry)
    ensures
        text::trim(alias.path@).len() > 0 <==> cmd_quoted_path(alias.path@).len() > 0,
        (alias.action@ == "navigate"@ || alias.action@ == "open"@ || alias.action@ == "execute"@
            || alias.action@ == "compile_gradle"@ || alias.action@ == "compile_maven"@) && text::trim(
            alias.path@,
        ).len() == 0 ==> cmd_command(alias).len() == 0,
        alias.action@ == "navigate"@ && text::trim(alias.path@).len() > 0 ==> cmd_command(alias)
            == "cd /d "@ + cmd_quoted_path(alias.path@),
        alias.action@ == "open"@ && text::trim(alias.path@).len() > 0 ==> cmd_command(alias)
            == "start \"\" "@ + cmd_quoted_path(alias.path@),
        alias.action@ == "execute"@ && text::trim(alias.path@).len() > 0 ==> cmd_command(alias)
            == "call "@ + cmd_quoted_path(alias.path@) + " %*"@,
        alias.action@ == "compile_gradle"@ && text::trim(alias.path@).len() > 0 ==> cmd_command(alias)
            == "cd /d "@ + cmd_quoted_path(alias.path@) + " && call gradlew.bat build"@,
        alias.action@ == "compile_maven"@ && text::trim(alias.path@).len() > 0 ==> cmd_command(alias)
            == "cd /d "@ + cmd_quoted_path(alias.path@) + " && call mvn clean package"@,
{
    lemma_action_names_differ();
    reveal_strlit("\"%USERPROFILE%\"");
    reveal_strlit("\"%USERPROFILE%\\");
    reveal_strlit("\"");
    let t = text::trim(alias.path@);
    let p = cmd_quoted_path(alias.path@);
    if t.len() > 0 {
        if t == "~"@ {
        } else if text::starts_with(t, "~/"@) || text::starts_with(t, "~\\"@) {
            assert(p.len() >= 1);
        } else {
            assert(p.len() >= 1);
        }
    }
}

/// A Gradle project and a Maven project at the same path get different
/// commands: the build tool is never mixed up.
pub proof fn lemma_build_tools_differ(gradle: AliasEntry, maven: AliasEntry)
    requires
        gradle.action@ == "compile_gradle"@,
        maven.action@ == "compile_maven"@,
        gradle.path@ == maven.path@,
        text::trim(gradle.path@).len() > 0,
    ensures
        cmd_command(gradle) != cmd_command(maven),
{
    lemma_path_action_commands(gradle);
    lemma_path_action_commands(maven);
    reveal_strlit(" && call gradlew.bat build");
    reveal_strlit(" && call mvn clean package");
    reveal_strlit("cd /d ");
    let p = cmd_quoted_path(gradle.path@);
    let g = cmd_command(gradle);
    let m = cmd_command(maven);
    assert(g.len() == p.len() + 6 + 26);
    assert(m.len() == p.len() + 6 + 26);
    assert(g[g.len() - 1] == 'd');
    assert(m[m.len() - 1] == 'e');
}

/// Rebuilds the command of an alias for cmd.exe.
pub fn build_command_preview(alias: &AliasEntry) -> (r: String)
    ensures
        r@ == cmd_command(*alias),
{
    let a = alias.action.as_str();
    if str_eq(a, "custom") {
        let c = match &alias.custom_command {
            Some(c) => chars_of(c.as_str()),
            None => chars_of(alias.command_preview.as_str()),
        };
        return string_of(&trim_chars(&c));
    }
    if !(str_eq(a, "navigate") || str_eq(a, "open") || str_eq(a, "execute") || str_eq(
        a,
        "compile_gradle",
    ) || str_eq(a, "compile_maven")) {
        return string_of(&trim_chars(&chars_of(alias.command_preview.as_str())));
    }
    let p = cmd_path(alias.path.as_str());
    if p.as_str().unicode_len() == 0 {
        return String::new();
    }
    if str_eq(a, "navigate") {
        concat2("cd /d ", p.as_str())
    } else if str_eq(a, "open") {
        concat2("start \"\" ", p.as_str())
    } else if str_eq(a, "execute") {
        concat3("call ", p.as_str(), " %*")
    } else if str_eq(a, "compile_gradle") {
        concat3("cd /d ", p.as_str(), " && call gradlew.bat build")
    } else {
        concat3("cd /d ", p.as_str(), " && call mvn clean package")
    }
}

/// Every alias with its command rebuilt for cmd.exe; nothing else changes.
pub fn normalize_aliases(aliases: Vec<AliasEntry>) -> (r: Vec<AliasEntry>)
    ensures
        r@.len() == aliases@.len(),
        forall|i: int|
            0 <= i < r@.len() ==> {
                let (a, b) = (#[trigger] r@[i], aliases@[i]);
                &&& a.id == b.id
                &&& a.name == b.name
                &&& a.path == b.path
                &&& a.action == b.action
                &&& a.custom_command == b.custom_command
                &&& a.favorite == b.favorite
                &&& a.created_at == b.created_at
                &&& a.updated_at == b.updated_at
                &&& a.command_preview@ == cmd_command(b)
            },
{
    let ghost orig = aliases@;
    let mut pending = aliases;
    let mut out: Vec<AliasEntry> = Vec::new();
    let n = pending.len();
    let mut i: usize = 0;
    while pending.len() > 0
        invariant
            n == orig.len(),
            i + pending@.len() == n,
            pending@ == orig.skip(i as int),
            out@.len() == i,
            forall|k: int|
                0 <= k < i ==> {
                    let (a, b) = (#[trigger] out@[k], orig[k]);
                    &&& a.id == b.id
                    &&& a.name == b.name
                    &&& a.path == b.path
                    &&& a.action == b.action
                    &&& a.custom_command == b.custom_command
                    &&& a.favorite == b.favorite
                    &&& a.created_at == b.created_at
                    &&& a.updated_at == b.updated_at
                    &&& a.command_preview@ == cmd_command(b)
                },
        decreases pending@.len(),
    {
        let ghost before = pending@;
        let alias = pending.remove(0);
        assert(before[0] == orig[i as int]);
        assert(pending@ =~= orig.skip(i + 1));
        let preview = build_command_preview(&alias);
        out.push(
            AliasEntry {
                id: alias.id,
                name: alias.name,
                path: alias.path,
                action: alias.action,
                custom_command: alias.custom_command,
                command_preview: preview,
                favorite: alias.favorite,
                created_at: alias.created_at,
                updated_at: alias.updated_at,
            },
        );
        i = i + 1;
    }
    out
}

/// The `.cmd` file of an alias: `@echo off` and its command, with Windows
/// line endings.
pub fn render_cmd_script(alias: &AliasEntry) -> (r: String)
    ensures
        r@ == "@echo off\r\n"@ + alias.command_preview@ + "\r\n"@,
{
    concat3("@echo off\r\n", alias.command_preview.as_str(), "\r\n")
}

/// The `easya.cmd` file that reopens EasyAlias from cmd.exe: it tries the
/// per-user and the Program Files install before Windows' own lookup.
pub fn render_app_shortcut() -> (r: String)
    ensures
        r@ == "@echo off\r\nif exist \"%LOCALAPPDATA%\\Programs\\EasyAlias\\EasyAlias.exe\" (\r\n  start \"\" \"%LOCALAPPDATA%\\Programs\\EasyAlias\\EasyAlias.exe\"\r\n  exit /b\r\n)\r\nif exist \"%ProgramFiles%\\EasyAlias\\EasyAlias.exe\" (\r\n  start \"\" \"%ProgramFiles%\\EasyAlias\\EasyAlias.exe\"\r\n  exit /b\r\n)\r\nstart \"\" \"EasyAlias\"\r\n"@,
{
    owned(
        "@echo off\r\nif exist \"%LOCALAPPDATA%\\Programs\\EasyAlias\\EasyAlias.exe\" (\r\n  start \"\" \"%LOCALAPPDATA%\\Programs\\EasyAlias\\EasyAlias.exe\"\r\n  exit /b\r\n)\r\nif exist \"%ProgramFiles%\\EasyAlias\\EasyAlias.exe\" (\r\n  start \"\" \"%ProgramFiles%\\EasyAlias\\EasyAlias.exe\"\r\n  exit /b\r\n)\r\nstart \"\" \"EasyAlias\"\r\n",
    )
}

/// `s` without the `c` characters at its start and end.
pub open spec fn trim_char(s: Seq<char>, c: char) -> Seq<char>
    decreases s.len(),
{
    if s.len() > 0 && s[0] == c {
        trim_char(s.drop_first(), c)
    } else if s.len() > 0 && s.last() == c {
        trim_char(s.drop_last(), c)
    } else {
        s
    }
}

/// `s` without the slashes and backslashes at its end.
pub open spec fn trim_end_slashes(s: Seq<char>) -> Seq<char>
    decreases s.len(),
{
    if s.len() > 0 && (s.last() == '\\' || s.last() == '/') {
        trim_end_slashes(s.drop_last())
    } else {
        s
    }
}

/// A PATH entry as it is compared: trimmed, without surrounding quotes or
/// trailing slashes, in ASCII lowercase.
pub open spec fn normalized_path(value: Seq<char>) -> Seq<char> {
    text::ascii_lower_seq(trim_end_slashes(trim_char(text::trim(value), '"')))
}

/// Normalizes a PATH entry for comparison.
pub fn normalize_path(value: &str) -> (r: String)
    ensures
        r@ == normalized_path(value@),
{
    let t = trim_chars(&chars_of(value));
    let mut lo: usize = 0;
    let mut hi: usize = t.len();
    assert(t@.subrange(0, t@.len() as int) =~= t@);
    while lo < hi && (t[lo] == '"' || t[hi - 1] == '"')
        invariant
            lo <= hi <= t@.len(),
            trim_char(t@, '"') == trim_char(t@.subrange(lo as int, hi as int), '"'),
        decreases hi - lo,
    {
        if t[lo] == '"' {
            assert(t@.subrange(lo as int, hi as int).drop_first() =~= t@.subrange(lo + 1, hi as int));
            lo = lo + 1;
        } else {
            assert(t@.subrange(lo as int, hi as int).drop_last() =~= t@.subrange(lo as int, hi - 1));
            hi = hi - 1;
        }
    }
    let mut end: usize = hi;
    assert(trim_char(t@.subrange(lo as int, hi as int), '"') == t@.subrange(lo as int, hi as int));
    while end > lo && (t[end - 1] == '\\' || t[end - 1] == '/')
        invariant
            lo <= end <= hi,
            hi <= t@.len(),
            trim_end_slashes(t@.subrange(lo as int, hi as int)) == trim_end_slashes(
                t@.subrange(lo as int, end as int),
            ),
        decreases end - lo,
    {
        assert(t@.subrange(lo as int, end as int).drop_last() =~= t@.subrange(lo as int, end - 1));
        end = end - 1;
    }
    let core = slice_chars(&t, lo, end);
    assert(trim_end_slashes(core@) == core@);
    string_of(&lower_ascii_chars(&core))
}

/// Whether one entry of a `;`-separated PATH is the command directory,
/// compared after normalizing both.
pub open spec fn path_lists(path_value: Seq<char>, dir: Seq<char>) -> bool {
    exists|i: int|
        0 <= i < text::split_on(path_value, ';').len() && normalized_path(
            #[trigger] text::split_on(path_value, ';')[i],
        ) == normalized_path(dir)
}

/// Whether the PATH value lists the command directory.
pub fn path_contains_command_dir(path_value: &str, command_dir: &str) -> (r: bool)
    ensures
        r == path_lists(path_value@, command_dir@),
{
    let needle = normalize_path(command_dir);
    let parts = split_chars(&chars_of(path_value), ';');
    let mut i: usize = 0;
    while i < parts.len()
        invariant
            i <= parts@.len(),
            parts@.map_values(|p: Vec<char>| p@) == text::split_on(path_value@, ';'),
            needle@ == normalized_path(command_dir@),
            forall|j: int|
                0 <= j < i ==> normalized_path(#[trigger] text::split_on(path_value@, ';')[j])
                    != normalized_path(command_dir@),
        decreases parts@.len() - i,
    {
        assert(parts@.map_values(|p: Vec<char>| p@)[i as int] == parts@[i as int]@);
        let entry = string_of(&parts[i]);
        let normal = normalize_path(entry.as_str());
        if normal == needle {
            return true;
        }
        i = i + 1;
    }
    false
}

/// Whether `path` is `parent` or lies below it, compared after normalizing
/// both.
pub open spec fn within(path: Seq<char>, parent: Seq<char>) -> bool {
    let p = normalized_path(path);
    let q = normalized_path(parent);
    p == q || (text::starts_with(p, q) && p.len() > q.len() && (p[q.len() as int] == '\\'
        || p[q.len() as int] == '/'))
}

/// Whether `path` is `parent` or lies below it.
pub fn path_is_within(path: &str, parent: &str) -> (r: bool)
    ensures
        r == within(path@, parent@),
{
    let p = chars_of(normalize_path(path).as_str());
    let q = chars_of(normalize_path(parent).as_str());
    if eq_chars(&p, &q) {
        return true;
    }
    starts_with_chars(&p, &q) && p.len() > q.len() && (p[q.len()] == '\\' || p[q.len()] == '/')
}

/// The PATH that earlier command files are searched in: the saved user
/// PATH, the process PATH, or both joined with `;` when they differ.
pub fn legacy_path_value(user_path: &str, process_path: &str) -> (r: String)
    ensures
        text::trim(user_path@).len() == 0 ==> r@ == process_path@,
        text::trim(user_path@).len() > 0 && (text::trim(process_path@).len() == 0 || process_path@
            == user_path@) ==> r@ == user_path@,
        text::trim(user_path@).len() > 0 && text::trim(process_path@).len() > 0 && process_path@
            != user_path@ ==> r@ == user_path@ + ";"@ + process_path@,
{
    if crate::text::is_blank_str(user_path) {
        owned(process_path)
    } else if crate::text::is_blank_str(process_path) || str_eq(process_path, user_path) {
        owned(user_path)
    } else {
        concat3(user_path, ";", process_path)
    }
}

/// The first position where `p` occurs in `s`.
pub open spec fn first_occurrence(s: Seq<char>, p: Seq<char>) -> Option<int> {
    if text::contains(s, p) {
        Some(choose|i: int| text::occurs_at(s, p, i) && forall|j: int| 0 <= j < i ==> !text::occurs_at(s, p, j))
    } else {
        None
    }
}

/// The first position of a whitespace character in `s`.
pub open spec fn first_space(s: Seq<char>) -> Option<int> {
    if exists|i: int| 0 <= i < s.len() && text::is_ws(s[i]) {
        Some(choose|i: int| 0 <= i < s.len() && text::is_ws(s[i]) && forall|j: int| 0 <= j < i ==> !text::is_ws(s[j]))
    } else {
        None
    }
}

/// The value on a line of `reg query` output: a line starting with `Path`
/// (any case, after indentation), then a `REG_` type, whitespace, and the
/// value, which is trimmed.
pub open spec fn registry_value(line: Seq<char>) -> Option<Seq<char>> {
    let t = text::trim_start(line);
    if !text::starts_with(text::ascii_lower_seq(t), "path"@) {
        None
    } else {
        match first_occurrence(t, "REG_"@) {
            None => None,
            Some(i) => {
                let v = t.skip(i);
                match first_space(v) {
                    None => None,
                    Some(j) => Some(text::trim(v.skip(j))),
                }
            },
        }
    }
}

/// The value of the first line that carries one, or nothing.
pub open spec fn registry_path(ls: Seq<Seq<char>>) -> Seq<char>
    decreases ls.len(),
{
    if ls.len() == 0 {
        Seq::empty()
    } else {
        match registry_value(ls[0]) {
            Some(v) => v,
            None => registry_path(ls.drop_first()),
        }
    }
}

proof fn lemma_first_occurrence(s: Seq<char>, p: Seq<char>, i: int)
    requires
        text::occurs_at(s, p, i),
        forall|j: int| 0 <= j < i ==> !text::occurs_at(s, p, j),
    ensures
        first_occurrence(s, p) == Some(i),
{
    assert(text::contains(s, p));
    let c = choose|i: int| text::occurs_at(s, p, i) && forall|j: int| 0 <= j < i ==> !text::occurs_at(s, p, j);
    assert(text::occurs_at(s, p, c) && forall|j: int| 0 <= j < c ==> !text::occurs_at(s, p, j));
    if c < i {
        assert(!text::occurs_at(s, p, c));
    }
    if i < c {
        assert(!text::occurs_at(s, p, i));
    }
}

fn find_space(s: &Vec<char>) -> (r: Option<usize>)
    ensures
        match r {
            Some(i) => first_space(s@) == Some(i as int) && i < s@.len(),
            None => first_space(s@) is None,
        },
{
    let mut i: usize = 0;
    while i < s.len()
        invariant
            i <= s@.len(),
            forall|j: int| 0 <= j < i ==> !text::is_ws(s@[j]),
        decreases s@.len() - i,
    {
        if crate::text::is_whitespace(s[i]) {
            proof {
                let c = choose|k: int|
                    0 <= k < s@.len() && text::is_ws(s@[k]) && forall|j: int| 0 <= j < k ==> !text::is_ws(s@[j]);
                assert(0 <= c < s@.len() && text::is_ws(s@[c]) && forall|j: int| 0 <= j < c ==> !text::is_ws(s@[j]));
                if c < i as int {
                    assert(!text::is_ws(s@[c]));
                }
                if (i as int) < c {
                    assert(!text::is_ws(s@[i as int]));
                }
            }
            return Some(i);
        }
        i = i + 1;
    }
    None
}

fn line_registry_value(line: &Vec<char>) -> (r: Option<Vec<char>>)
    ensures
        match registry_value(line@) {
            Some(v) => r is Some && r->Some_0@ == v,
            None => r is None,
        },
{
    let t = crate::text::trim_start_chars(line);
    let lower = lower_ascii_chars(&t);
    proof {
        reveal_strlit("path");
        reveal_strlit("REG_");
    }
    if !starts_with_chars(&lower, &chars_of("path")) {
        return None;
    }
    let reg = chars_of("REG_");
    match crate::text::find_chars(&t, &reg) {
        None => None,
        Some(i) => {
            proof {
                lemma_first_occurrence(t@, reg@, i as int);
            }
            let v = slice_chars(&t, i, t.len());
            assert(v@ =~= t@.skip(i as int));
            match find_space(&v) {
                None => None,
                Some(j) => {
                    let rest = slice_chars(&v, j, v.len());
                    assert(rest@ =~= v@.skip(j as int));
                    Some(trim_chars(&rest))
                },
            }
        },
    }
}

/// Reads the user PATH out of `reg query HKCU\Environment /v Path` output,
/// whose surrounding text is localized: the value of the first `Path` line
/// with a registry type, or nothing.
pub fn parse_registry_path(stdout: &str) -> (r: String)
    ensures
        r@ == registry_path(text::lines(stdout@)),
{
    let ls = lines_chars(&chars_of(stdout));
    let ghost lv = text::lines(stdout@);
    let mut i: usize = 0;
    assert(lv.skip(0) =~= lv);
    while i < ls.len()
        invariant
            i <= ls@.len(),
            ls@.map_values(|l: Vec<char>| l@) == lv,
            lv == text::lines(stdout@),
            registry_path(lv) == registry_path(lv.skip(i as int)),
        decreases ls@.len() - i,
    {
        assert(lv.skip(i as int)[0] == ls@[i as int]@);
        assert(lv.skip(i as int).drop_first() =~= lv.skip(i + 1));
        match line_registry_value(&ls[i]) {
            Some(v) => {
                assert(lv.skip(i as int).len() > 0);
                assert(registry_value(lv.skip(i as int)[0]) == Some(v@));
                assert(registry_path(lv.skip(i as int)) == v@);
                return string_of(&v);
            },
            None => {},
        }
        i = i + 1;
    }
    String::new()
}

/// The stem of a `.cmd` file name (extension in any case), if it is one.
pub open spec fn cmd_file_stem(file_name: Seq<char>) -> Option<Seq<char>> {
    match command_import::last_index(file_name, '.') {
        Some(k) => if k > 0 && text::ascii_lower_seq(file_name.skip(k + 1)) == seq!['c', 'm', 'd'] {
            Some(file_name.take(k))
        } else {
            None
        },
        None => None,
    }
}

/// Whether a file of the command folder is left over: a `.cmd` file that is
/// neither the `easya` shortcut nor the file of an alias, names compared
/// ignoring case.
pub open spec fn stale_script(file_name: Seq<char>, aliases: Seq<AliasEntry>) -> bool {
    match cmd_file_stem(file_name) {
        Some(stem) => text::ascii_lower_seq(stem) != shell_alias::app_alias_name() && !folded_taken(
            aliases,
            text::ascii_lower_seq(stem),
        ),
        None => false,
    }
}

/// The files of the command folder that are left over, in listing order.
pub open spec fn stale_scripts(files: Seq<Seq<char>>, aliases: Seq<AliasEntry>) -> Seq<Seq<char>>
    decreases files.len(),
{
    if files.len() == 0 {
        Seq::empty()
    } else {
        let prev = stale_scripts(files.drop_last(), aliases);
        if stale_script(files.last(), aliases) {
            prev.push(files.last())
        } else {
            prev
        }
    }
}

/// The script of a current alias, `{name}.cmd`, is never left over: a
/// regeneration keeps it (and rewrites it) rather than deleting it.
pub proof fn lemma_alias_scripts_kept(aliases: Seq<AliasEntry>, i: int)
    requires
        0 <= i < aliases.len(),
    ensures
        !stale_script(aliases[i].name@ + ".cmd"@, aliases),
{
    reveal_strlit(".cmd");
    let name = aliases[i].name@;
    let f = name + ".cmd"@;
    let k = name.len() as int;
    assert(f.last() == 'd');
    assert(f.drop_last().last() == 'm');
    assert(f.drop_last().drop_last().last() == 'c');
    assert(f.drop_last().drop_last().drop_last().last() == '.');
    let f1 = f.drop_last();
    let f2 = f1.drop_last();
    let f3 = f2.drop_last();
    assert(f3.len() == k + 1);
    assert(command_import::last_index(f3, '.') == Some(k));
    assert(command_import::last_index(f2, '.') == Some(k));
    assert(command_import::last_index(f1, '.') == Some(k));
    assert(command_import::last_index(f, '.') == Some(k));
    if k > 0 {
        assert(f.skip(k + 1) =~= seq!['c', 'm', 'd']);
        assert(text::ascii_lower_seq(seq!['c', 'm', 'd']) =~= seq!['c', 'm', 'd']);
        assert(f.take(k) =~= name);
        assert(folded_taken(aliases, text::ascii_lower_seq(name)));
    }
}

/// One generated command file: its name in the command folder and its text.
pub struct CommandScript {
    pub file_name: String,
    pub content: String,
}

/// What regenerating the command folder does: delete the left-over files,
/// write one script per alias, and write the `easya` shortcut if it is
/// missing and no alias takes its name.
pub struct CommandScriptPlan {
    pub stale: Vec<String>,
    pub scripts: Vec<CommandScript>,
    pub shortcut_wanted: bool,
}

fn is_stale_script(file_name: &str, aliases: &[AliasEntry]) -> (r: bool)
    ensures
        r == stale_script(file_name@, aliases@),
{
    let s = chars_of(file_name);
    let k = match last_dot(&s) {
        Some(k) => k,
        None => {
            return false;
        },
    };
    proof {
        command_import::lemma_last_index(s@, '.');
    }
    if k == 0 {
        return false;
    }
    let ext = lower_ascii_chars(&slice_chars(&s, k + 1, s.len()));
    assert(s@.subrange(k + 1, s@.len() as int) =~= s@.skip(k + 1));
    let cmd: Vec<char> = vec!['c', 'm', 'd'];
    assert(cmd@ =~= seq!['c', 'm', 'd']);
    if !eq_chars(&ext, &cmd) {
        return false;
    }
    let stem = lower_ascii_chars(&slice_chars(&s, 0, k));
    assert(s@.subrange(0, k as int) =~= s@.take(k as int));
    let reserved: Vec<char> = vec!['e', 'a', 's', 'y', 'a'];
    assert(reserved@ =~= shell_alias::app_alias_name());
    if eq_chars(&stem, &reserved) {
        return false;
    }
    assert(stale_script(file_name@, aliases@) == !folded_taken(aliases@, stem@));
    let mut i: usize = 0;
    while i < aliases.len()
        invariant
            i <= aliases@.len(),
            stale_script(file_name@, aliases@) == !folded_taken(aliases@, stem@),
            forall|j: int| 0 <= j < i ==> text::ascii_lower_seq(aliases@[j].name@) != stem@,
        decreases aliases@.len() - i,
    {
        let name = lower_ascii_chars(&chars_of(aliases[i].name.as_str()));
        if eq_chars(&name, &stem) {
            assert(text::ascii_lower_seq(aliases@[i as int].name@) == stem@);
            return false;
        }
        i = i + 1;
    }
    true
}

/// Plans how the command folder is regenerated from the aliases, given the
/// names of the files it holds now: refused with the first invalid alias;
/// otherwise stale `.cmd` files go, every alias gets `{name}.cmd`, and the
/// `easya` shortcut is wanted unless an alias is called `easya` in any case.
pub fn command_script_plan(aliases: &[AliasEntry], existing: &Vec<String>) -> (r: Result<
    CommandScriptPlan,
    String,
>)
    ensures
        match r {
            Err(e) => alias_entry::first_entry_error(aliases@) == Some(e@),
            Ok(plan) => {
                &&& alias_entry::first_entry_error(aliases@) is None
                &&& tui_forms::texts(plan.stale@) == stale_scripts(tui_forms::texts(existing@), aliases@)
                &&& plan.scripts@.len() == aliases@.len()
                &&& forall|i: int|
                    0 <= i < aliases@.len() ==> (#[trigger] plan.scripts@[i]).file_name@
                        == aliases@[i].name@ + ".cmd"@ && plan.scripts@[i].content@ == "@echo off\r\n"@
                        + aliases@[i].command_preview@ + "\r\n"@
                &&& plan.shortcut_wanted == !folded_taken(aliases@, shell_alias::app_alias_name())
            },
        },
{
    let mut i: usize = 0;
    while i < aliases.len()
        invariant
            i <= aliases@.len(),
            alias_entry::first_entry_error(aliases@.take(i as int)) is None,
        decreases aliases@.len() - i,
    {
        assert(aliases@.take(i + 1).drop_last() =~= aliases@.take(i as int));
        assert(aliases@.take(i + 1).last() == aliases@[i as int]);
        match validate_alias_entry(&aliases[i]) {
            Err(e) => {
                proof {
                    alias_entry::lemma_first_entry_error_prefix(aliases@, i as int + 1);
                }
                return Err(e);
            },
            Ok(()) => {},
        }
        i = i + 1;
    }
    assert(aliases@.take(aliases@.len() as int) =~= aliases@);
    let mut stale: Vec<String> = Vec::new();
    let mut j: usize = 0;
    while j < existing.len()
        invariant
            j <= existing@.len(),
            tui_forms::texts(stale@) == stale_scripts(tui_forms::texts(existing@).take(j as int), aliases@),
        decreases existing@.len() - j,
    {
        let ghost before = tui_forms::texts(stale@);
        assert(tui_forms::texts(existing@).take(j + 1).drop_last() =~= tui_forms::texts(existing@).take(j as int));
        assert(tui_forms::texts(existing@).take(j + 1).last() == existing@[j as int]@);
        if is_stale_script(existing[j].as_str(), aliases) {
            stale.push(owned(existing[j].as_str()));
            assert(tui_forms::texts(stale@) =~= before.push(existing@[j as int]@));
        }
        j = j + 1;
    }
    assert(tui_forms::texts(existing@).take(existing@.len() as int) =~= tui_forms::texts(existing@));
    let mut scripts: Vec<CommandScript> = Vec::new();
    let mut k: usize = 0;
    while k < aliases.len()
        invariant
            k <= aliases@.len(),
            scripts@.len() == k,
            forall|i: int|
                0 <= i < k ==> (#[trigger] scripts@[i]).file_name@ == aliases@[i].name@ + ".cmd"@
                    && scripts@[i].content@ == "@echo off\r\n"@ + aliases@[i].command_preview@
                    + "\r\n"@,
        decreases aliases@.len() - k,
    {
        scripts.push(
            CommandScript {
                file_name: concat2(aliases[k].name.as_str(), ".cmd"),
                content: render_cmd_script(&aliases[k]),
            },
        );
        k = k + 1;
    }
    let reserved: Vec<char> = vec!['e', 'a', 's', 'y', 'a'];
    assert(reserved@ =~= shell_alias::app_alias_name());
    let mut taken = false;
    let mut t: usize = 0;
    while t < aliases.len()
        invariant
            t <= aliases@.len(),
            reserved@ == shell_alias::app_alias_name(),
            taken == exists|j: int|
                0 <= j < t && text::ascii_lower_seq(aliases@[j].name@) == shell_alias::app_alias_name(),
        decreases aliases@.len() - t,
    {
        let name = lower_ascii_chars(&chars_of(aliases[t].name.as_str()));
        if eq_chars(&name, &reserved) {
            taken = true;
        }
        t = t + 1;
    }
    Ok(CommandScriptPlan { stale, scripts, shortcut_wanted: !taken })
}

/// `s` without the `c` characters at its end.
pub open spec fn trim_end_char(s: Seq<char>, c: char) -> Seq<char>
    decreases s.len(),
{
    if s.len() > 0 && s.last() == c {
        trim_end_char(s.drop_last(), c)
    } else {
        s
    }
}

/// The PATH value with `dir` appended: `dir` alone when the PATH is blank,
/// otherwise the PATH without trailing `;`, a `;` and `dir`.
pub open spec fn appended_path(path_value: Seq<char>, dir: Seq<char>) -> Seq<char> {
    if text::trim(path_value).len() == 0 {
        dir
    } else {
        trim_end_char(path_value, ';') + ";"@ + dir
    }
}

proof fn lemma_split_ends_with(a: Seq<char>, b: Seq<char>)
    requires
        forall|i: int| 0 <= i < b.len() ==> b[i] != ';',
    ensures
        text::split_on(a + seq![';'] + b, ';').last() == b,
        text::split_on(b, ';').last() == b,
    decreases b.len(),
{
    if b.len() == 0 {
        assert(a + seq![';'] + b =~= a.push(';'));
        assert((a + seq![';'] + b).drop_last() =~= a);
        assert(b =~= Seq::<char>::empty());
    } else {
        lemma_split_ends_with(a, b.drop_last());
        assert((a + seq![';'] + b).drop_last() =~= a + seq![';'] + b.drop_last());
        assert((a + seq![';'] + b).last() == b.last());
        text::lemma_split_on_nonempty(a + seq![';'] + b.drop_last(), ';');
        text::lemma_split_on_nonempty(b.drop_last(), ';');
        assert(b.drop_last().push(b.last()) =~= b);
    }
}

/// Appending the command folder makes the PATH list it, so the next check
/// finds it and nothing is appended twice (for a folder path without `;`).
pub proof fn lemma_appended_path_lists_dir(path_value: Seq<char>, dir: Seq<char>)
    requires
        forall|i: int| 0 <= i < dir.len() ==> dir[i] != ';',
    ensures
        path_lists(appended_path(path_value, dir), dir),
{
    let p = appended_path(path_value, dir);
    reveal_strlit(";");
    if text::trim(path_value).len() == 0 {
        lemma_split_ends_with(Seq::empty(), dir);
    } else {
        assert(p =~= trim_end_char(path_value, ';') + seq![';'] + dir);
        lemma_split_ends_with(trim_end_char(path_value, ';'), dir);
    }
    text::lemma_split_on_nonempty(p, ';');
    let parts = text::split_on(p, ';');
    assert(parts[parts.len() - 1] == dir);
}

/// The user PATH with the command folder appended once: nothing to change
/// when it already lists the folder; the folder alone when the PATH is
/// blank; otherwise the PATH without trailing `;`, a `;` and the folder.
pub fn user_path_with_command_dir(user_path: &str, command_dir: &str) -> (r: Option<String>)
    ensures
        path_lists(user_path@, command_dir@) ==> r is None,
        !path_lists(user_path@, command_dir@) ==> r is Some && r->Some_0@ == appended_path(
            user_path@,
            command_dir@,
        ),
{
    if path_contains_command_dir(user_path, command_dir) {
        return None;
    }
    if crate::text::is_blank_str(user_path) {
        return Some(owned(command_dir));
    }
    let p = chars_of(user_path);
    let mut end: usize = p.len();
    assert(p@.subrange(0, end as int) =~= p@);
    while end > 0 && p[end - 1] == ';'
        invariant
            end <= p@.len(),
            trim_end_char(p@, ';') == trim_end_char(p@.subrange(0, end as int), ';'),
        decreases end,
    {
        assert(p@.subrange(0, end as int).drop_last() =~= p@.subrange(0, end - 1));
        end = end - 1;
    }
    let mut v = slice_chars(&p, 0, end);
    push_str(&mut v, ";");
    push_str(&mut v, command_dir);
    Some(string_of(&v))
}

} // verus!
