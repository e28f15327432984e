//! How the terminal edition lists aliases and automations: the quick
//! filters (Git, Docker, Build, ...), the schedule summary and the relative
//! times shown next to deleted items.

use vstd::prelude::*;
use crate::text;
use crate::shell_alias;
use crate::text::{chars_of, eq_chars, is_whitespace, push_all, push_str, string_of, to_lowercase, trim_chars};
use crate::message::{concat2, owned, str_eq};
use crate::shell_alias::push_decimal;
use crate::alias_entry::{AliasEntry, TRASH_RETENTION_SECONDS};
use crate::automation::Automation;
use crate::timed::TimedAutomation;

verus! {

/// The characters that separate the words of a command for the filters.
pub open spec fn is_separator(c: char) -> bool {
    text::is_ws(c) || c == ';' || c == '&' || c == '|'
}

/// Reading a command left to right: the finished words and the word being
/// read.
pub open spec fn word_scan(s: Seq<char>) -> (Seq<Seq<char>>, Seq<char>)
    decreases s.len(),
{
    if s.len() == 0 {
        (Seq::empty(), Seq::empty())
    } else {
        let (done, current) = word_scan(s.drop_last());
        if is_separator(s.last()) {
            if current.len() > 0 {
                (done.push(current), Seq::empty())
            } else {
                (done, Seq::empty())
            }
        } else {
            (done, current.push(s.last()))
        }
    }
}

/// The nonempty words of a command, split at whitespace, `;`, `&` and `|`.
pub open spec fn words(s: Seq<char>) -> Seq<Seq<char>> {
    let (done, current) = word_scan(s);
    if current.len() > 0 {
        done.push(current)
    } else {
        done
    }
}

/// The words of a command.
pub fn command_words(command: &Vec<char>) -> (r: Vec<Vec<char>>)
    ensures
        r@.map_values(|w: Vec<char>| w@) == words(command@),
{
    let mut done: Vec<Vec<char>> = Vec::new();
    let mut current: Vec<char> = Vec::new();
    let mut i: usize = 0;
    while i < command.len()
        invariant
            i <= command@.len(),
            (done@.map_values(|w: Vec<char>| w@), current@) == word_scan(command@.take(i as int)),
        decreases command@.len() - i,
    {
        let c = command[i];
        assert(command@.take(i + 1).drop_last() =~= command@.take(i as int));
        let ghost d0 = done@;
        if is_whitespace(c) || c == ';' || c == '&' || c == '|' {
            if current.len() > 0 {
                let w = current;
                done.push(w);
                current = Vec::new();
                assert(done@.map_values(|w: Vec<char>| w@) =~= d0.map_values(|w: Vec<char>| w@).push(
                    w@,
                ));
            }
        } else {
            current.push(c);
        }
        i = i + 1;
    }
    assert(command@.take(command@.len() as int) =~= command@);
    if current.len() > 0 {
        let ghost d0 = done@;
        done.push(current);
        assert(done@.map_values(|w: Vec<char>| w@) =~= d0.map_values(|w: Vec<char>| w@).push(
            done@.last()@,
        ));
    }
    done
}

/// Whether one of the words of a command is one of the given words.
pub open spec fn has_any_word(command: Seq<char>, wanted: Seq<Seq<char>>) -> bool {
    exists|i: int, j: int|
        0 <= i < words(command).len() && 0 <= j < wanted.len() && words(command)[i] == wanted[j]
}

/// Whether the command uses one of the tools as a word of its own.
pub fn has_word(command: &str, tools: &[&str]) -> (r: bool)
    ensures
        r == has_any_word(command@, tools@.map_values(|t: &str| t@)),
{
    let ws = command_words(&chars_of(command));
    let ghost wv = ws@.map_values(|w: Vec<char>| w@);
    let ghost tv = tools@.map_values(|t: &str| t@);
    let mut i: usize = 0;
    while i < ws.len()
        invariant
            i <= ws@.len(),
            wv == ws@.map_values(|w: Vec<char>| w@),
            wv == words(command@),
            tv == tools@.map_values(|t: &str| t@),
            forall|a: int, b: int| 0 <= a < i && 0 <= b < tv.len() ==> wv[a] != tv[b],
        decreases ws@.len() - i,
    {
        let mut j: usize = 0;
        while j < tools.len()
            invariant
                i < ws@.len(),
                j <= tools@.len(),
                wv == ws@.map_values(|w: Vec<char>| w@),
                tv == tools@.map_values(|t: &str| t@),
                wv == words(command@),
                forall|a: int, b: int| 0 <= a < i && 0 <= b < tv.len() ==> wv[a] != tv[b],
                forall|b: int| 0 <= b < j ==> wv[i as int] != tv[b],
            decreases tools@.len() - j,
        {
            let t = chars_of(tools[j]);
            assert(wv[i as int] == ws@[i as int]@);
            assert(tv[j as int] == tools@[j as int]@);
            if eq_chars(&ws[i], &t) {
                assert(wv[i as int] == tv[j as int]);
                assert(0 <= i < words(command@).len() && 0 <= j < tv.len() && words(command@)[i as int]
                    == tv[j as int]);
                return true;
            }
            j = j + 1;
        }
        i = i + 1;
    }
    false
}

/// A build tool word, with or without a leading `./`.
pub open spec fn is_build_tool(w: Seq<char>) -> bool {
    let t = if text::starts_with(w, "./"@) {
        w.subrange(2, w.len() as int)
    } else {
        w
    };
    t == "gradle"@ || t == "gradlew"@ || t == "mvn"@ || t == "mvnw"@ || t == "make"@
}

/// A JavaScript package manager word.
pub open spec fn is_package_manager(w: Seq<char>) -> bool {
    w == "npm"@ || w == "pnpm"@ || w == "yarn"@ || w == "bun"@
}

/// Whether the words show a build: a build tool, `cargo build`,
/// `npm build` (or pnpm, yarn, bun), or `npm run build`.
pub open spec fn builds(ws: Seq<Seq<char>>) -> bool {
    ||| exists|i: int| 0 <= i < ws.len() && is_build_tool(#[trigger] ws[i])
    ||| exists|i: int| 0 <= i < ws.len() - 1 && #[trigger] ws[i] == "cargo"@ && ws[i + 1] == "build"@
    ||| exists|i: int|
        0 <= i < ws.len() - 1 && is_package_manager(#[trigger] ws[i]) && ws[i + 1] == "build"@
    ||| exists|i: int|
        0 <= i < ws.len() - 2 && is_package_manager(#[trigger] ws[i]) && ws[i + 1] == "run"@ && ws[i
            + 2] == "build"@
}

fn word_is(w: &Vec<char>, s: &str) -> (r: bool)
    ensures
        r == (w@ == s@),
{
    eq_chars(w, &chars_of(s))
}

fn build_tool(w: &Vec<char>) -> (r: bool)
    ensures
        r == is_build_tool(w@),
{
    proof {
        reveal_strlit("./");
    }
    let t = if w.len() >= 2 && w[0] == '.' && w[1] == '/' {
        assert(text::starts_with(w@, "./"@)) by {
            assert(w@.take(2) =~= "./"@);
        }
        crate::text::slice_chars(w, 2, w.len())
    } else {
        assert(!text::starts_with(w@, "./"@)) by {
            if w@.len() >= 2 {
                assert(w@.take(2)[0] == w@[0]);
                assert(w@.take(2)[1] == w@[1]);
            }
        }
        w.clone()
    };
    word_is(&t, "gradle") || word_is(&t, "gradlew") || word_is(&t, "mvn") || word_is(&t, "mvnw")
        || word_is(&t, "make")
}

fn package_manager(w: &Vec<char>) -> (r: bool)
    ensures
        r == is_package_manager(w@),
{
    word_is(w, "npm") || word_is(w, "pnpm") || word_is(w, "yarn") || word_is(w, "bun")
}

/// Whether a command builds something (Gradle, Maven, make, cargo, or a
/// JavaScript package manager's build script).
pub fn has_build_command(command: &str) -> (r: bool)
    ensures
        r == builds(words(command@)),
{
    let ws = command_words(&chars_of(command));
    let ghost wv = ws@.map_values(|w: Vec<char>| w@);
    assert(wv == words(command@));
    let n = ws.len();
    let mut found = false;
    let mut i: usize = 0;
    while i < n
        invariant
            n == ws@.len(),
            i <= n,
            wv == ws@.map_values(|w: Vec<char>| w@),
            found == exists|k: int| 0 <= k < i && is_build_tool(#[trigger] wv[k]),
        decreases n - i,
    {
        assert(wv[i as int] == ws@[i as int]@);
        if build_tool(&ws[i]) {
            found = true;
        }
        i = i + 1;
    }
    if found {
        return true;
    }
    let mut pair = false;
    let mut i: usize = 0;
    while n > 0 && i < n - 1
        invariant
            n == ws@.len(),
            wv == ws@.map_values(|w: Vec<char>| w@),
            pair == ((exists|k: int| 0 <= k < i && k < n - 1 && #[trigger] wv[k] == "cargo"@ && wv[k + 1]
                == "build"@) || (exists|k: int|
                0 <= k < i && k < n - 1 && is_package_manager(#[trigger] wv[k]) && wv[k + 1]
                    == "build"@)),
        decreases n - i,
    {
        assert(wv[i as int] == ws@[i as int]@);
        assert(wv[i + 1] == ws@[i + 1]@);
        if (word_is(&ws[i], "cargo") && word_is(&ws[i + 1], "build")) || (package_manager(&ws[i])
            && word_is(&ws[i + 1], "build")) {
            pair = true;
        }
        i = i + 1;
    }
    if pair {
        return true;
    }
    let mut triple = false;
    let mut i: usize = 0;
    while n > 1 && i < n - 2
        invariant
            n == ws@.len(),
            wv == ws@.map_values(|w: Vec<char>| w@),
            triple == exists|k: int|
                0 <= k < i && k < n - 2 && is_package_manager(#[trigger] wv[k]) && wv[k + 1] == "run"@
                    && wv[k + 2] == "build"@,
        decreases n - i,
    {
        assert(wv[i as int] == ws@[i as int]@);
        assert(wv[i + 1] == ws@[i + 1]@);
        assert(wv[i + 2] == ws@[i + 2]@);
        if package_manager(&ws[i]) && word_is(&ws[i + 1], "run") && word_is(&ws[i + 2], "build") {
            triple = true;
        }
        i = i + 1;
    }
    triple
}

/// Whether a word list holds `git`.
pub open spec fn git_words() -> Seq<Seq<char>> {
    seq!["git"@]
}

/// The Docker tool words.
pub open spec fn docker_words() -> Seq<Seq<char>> {
    seq!["docker"@, "docker-compose"@]
}

/// Whether an alias shows under a quick filter of the alias list.
pub open spec fn alias_shown(alias: AliasEntry, filter: Seq<char>) -> bool {
    let command = text::lowercase(text::trim(alias.command_preview@));
    if filter == "favorites"@ {
        alias.favorite
    } else if filter == "git"@ {
        has_any_word(command, git_words())
    } else if filter == "docker"@ {
        has_any_word(command, docker_words())
    } else if filter == "navigation"@ {
        alias.action@ == "navigate"@
    } else if filter == "build"@ {
        alias.action@ == "compile_gradle"@ || alias.action@ == "compile_maven"@ || builds(
            words(command),
        )
    } else {
        true
    }
}

/// What each quick filter of the alias list keeps, over the command
/// trimmed and in lower case: `favorites` the favorites; `git` commands with
/// a word `git`; `docker` commands with a word `docker` or `docker-compose`;
/// `navigation` the aliases that change directory; `build` the Gradle and
/// Maven project aliases and commands that build; any other filter keeps
/// every alias.
pub proof fn lemma_alias_filters(alias: AliasEntry, filter: Seq<char>)
    ensures
        ({
            let ws = words(text::lowercase(text::trim(alias.command_preview@)));
            &&& filter == "favorites"@ ==> (alias_shown(alias, filter) <==> alias.favorite)
            &&& filter == "git"@ ==> (alias_shown(alias, filter) <==> exists|i: int|
                0 <= i < ws.len() && ws[i] == "git"@)
            &&& filter == "docker"@ ==> (alias_shown(alias, filter) <==> exists|i: int|
                0 <= i < ws.len() && (ws[i] == "docker"@ || ws[i] == "docker-compose"@))
            &&& filter == "navigation"@ ==> (alias_shown(alias, filter) <==> alias.action@
                == "navigate"@)
            &&& filter == "build"@ ==> (alias_shown(alias, filter) <==> (alias.action@
                == "compile_gradle"@ || alias.action@ == "compile_maven"@ || builds(ws)))
            &&& (filter != "favorites"@ && filter != "git"@ && filter != "docker"@ && filter
                != "navigation"@ && filter != "build"@) ==> alias_shown(alias, filter)
        }),
{
    reveal_strlit("favorites");
    reveal_strlit("git");
    reveal_strlit("docker");
    reveal_strlit("navigation");
    reveal_strlit("build");
    assert("favorites"@.len() != "git"@.len());
    assert("favorites"@.len() != "docker"@.len());
    assert("favorites"@.len() != "navigation"@.len());
    assert("favorites"@.len() != "build"@.len());
    assert("git"@.len() != "docker"@.len());
    assert("git"@.len() != "navigation"@.len());
    assert("git"@.len() != "build"@.len());
    assert("docker"@.len() != "navigation"@.len());
    assert("docker"@.len() != "build"@.len());
    assert("navigation"@.len() != "build"@.len());
    let ws = words(text::lowercase(text::trim(alias.command_preview@)));
    if filter == "git"@ {
        if exists|i: int| 0 <= i < ws.len() && ws[i] == "git"@ {
            let i = choose|i: int| 0 <= i < ws.len() && ws[i] == "git"@;
            assert(git_words()[0] == "git"@);
        }
    }
    if filter == "docker"@ {
        if exists|i: int| 0 <= i < ws.len() && (ws[i] == "docker"@ || ws[i] == "docker-compose"@) {
            let i = choose|i: int| 0 <= i < ws.len() && (ws[i] == "docker"@ || ws[i] == "docker-compose"@);
            assert(docker_words()[0] == "docker"@);
            assert(docker_words()[1] == "docker-compose"@);
        }
    }
}

/// Whether an alias shows under a quick filter (favorites, git, docker,
/// navigation, build; anything else shows everything).
pub fn alias_matches_filter(alias: &AliasEntry, filter: &str) -> (r: bool)
    ensures
        r == alias_shown(*alias, filter@),
{
    let trimmed = string_of(&trim_chars(&chars_of(alias.command_preview.as_str())));
    let command = to_lowercase(trimmed.as_str());
    let c = command.as_str();
    proof {
        assert(seq!["git"].map_values(|t: &str| t@) =~= git_words());
        assert(seq!["docker", "docker-compose"].map_values(|t: &str| t@) =~= docker_words());
    }
    if str_eq(filter, "favorites") {
        alias.favorite
    } else if str_eq(filter, "git") {
        let tools = ["git"];
        assert(tools@ =~= seq!["git"]);
        has_word(c, &tools)
    } else if str_eq(filter, "docker") {
        let tools = ["docker", "docker-compose"];
        assert(tools@ =~= seq!["docker", "docker-compose"]);
        has_word(c, &tools)
    } else if str_eq(filter, "navigation") {
        str_eq(alias.action.as_str(), "navigate")
    } else if str_eq(filter, "build") {
        str_eq(alias.action.as_str(), "compile_gradle") || str_eq(alias.action.as_str(), "compile_maven")
            || has_build_command(c)
    } else {
        true
    }
}

/// The commands of an automation's command steps, joined with ` \n `.
pub open spec fn command_text(steps: Seq<crate::automation::AutomationStep>) -> Seq<char>
    decreases steps.len(),
{
    if steps.len() == 0 {
        Seq::empty()
    } else {
        let prev = command_text(steps.drop_last());
        if steps.last().kind@ != "command"@ {
            prev
        } else if command_count(steps.drop_last()) == 0 {
            steps.last().command@
        } else {
            prev + " \n "@ + steps.last().command@
        }
    }
}

/// How many steps are commands.
pub open spec fn command_count(steps: Seq<crate::automation::AutomationStep>) -> nat
    decreases steps.len(),
{
    if steps.len() == 0 {
        0
    } else if steps.last().kind@ == "command"@ {
        command_count(steps.drop_last()) + 1
    } else {
        command_count(steps.drop_last())
    }
}

/// Whether an automation shows under a filter of the automation list:
/// `group:<name>` picks one group; the quick filters look at the commands.
pub open spec fn automation_shown(a: Automation, filter: Seq<char>) -> bool {
    let text = text::lowercase(command_text(a.steps@));
    if text::starts_with(filter, "group:"@) {
        text::trim(a.group@) == filter.subrange(6, filter.len() as int)
    } else if filter == "favorites"@ {
        a.favorite
    } else if filter == "background"@ {
        exists|i: int|
            0 <= i < a.steps@.len() && (#[trigger] a.steps@[i]).kind@ == "command"@ && a.steps@[i].behavior@
                == "background"@
    } else if filter == "git"@ {
        has_any_word(text, git_words())
    } else if filter == "docker"@ {
        has_any_word(text, docker_words())
    } else if filter == "build"@ {
        builds(words(text))
    } else {
        true
    }
}

/// What each filter of the automation list keeps: `group:<name>` the
/// automations of that group (trimmed); `favorites` the favorites;
/// `background` those with a command step that runs in the background;
/// `git`, `docker` and `build` look at the words of the commands in lower
/// case as the alias filters do; any other filter keeps every automation.
pub proof fn lemma_automation_filters(a: Automation, filter: Seq<char>)
    ensures
        ({
            let ws = words(text::lowercase(command_text(a.steps@)));
            &&& text::starts_with(filter, "group:"@) ==> (automation_shown(a, filter) <==> text::trim(
                a.group@,
            ) == filter.skip(6))
            &&& filter == "favorites"@ ==> (automation_shown(a, filter) <==> a.favorite)
            &&& filter == "background"@ ==> (automation_shown(a, filter) <==> exists|i: int|
                0 <= i < a.steps@.len() && a.steps@[i].kind@ == "command"@ && a.steps@[i].behavior@
                    == "background"@)
            &&& filter == "git"@ ==> (automation_shown(a, filter) <==> exists|i: int|
                0 <= i < ws.len() && ws[i] == "git"@)
            &&& filter == "docker"@ ==> (automation_shown(a, filter) <==> exists|i: int|
                0 <= i < ws.len() && (ws[i] == "docker"@ || ws[i] == "docker-compose"@))
            &&& filter == "build"@ ==> (automation_shown(a, filter) <==> builds(ws))
            &&& (!text::starts_with(filter, "group:"@) && filter != "favorites"@ && filter
                != "background"@ && filter != "git"@ && filter != "docker"@ && filter != "build"@)
                ==> automation_shown(a, filter)
        }),
{
    reveal_strlit("group:");
    reveal_strlit("favorites");
    reveal_strlit("background");
    reveal_strlit("git");
    reveal_strlit("docker");
    reveal_strlit("build");
    assert("favorites"@.len() != "background"@.len());
    assert("favorites"@.len() != "git"@.len());
    assert("favorites"@.len() != "docker"@.len());
    assert("favorites"@.len() != "build"@.len());
    assert("background"@.len() != "git"@.len());
    assert("background"@.len() != "docker"@.len());
    assert("background"@.len() != "build"@.len());
    assert("git"@.len() != "docker"@.len());
    assert("git"@.len() != "build"@.len());
    assert("docker"@.len() != "build"@.len());
    assert(!text::starts_with("favorites"@, "group:"@)) by {
        if "favorites"@.len() >= 6 {
            assert("favorites"@.take(6)[0] != "group:"@[0]);
        }
    }
    assert(!text::starts_with("background"@, "group:"@)) by {
        if "background"@.len() >= 6 {
            assert("background"@.take(6)[0] != "group:"@[0]);
        }
    }
    assert(!text::starts_with("git"@, "group:"@)) by {
        if "git"@.len() >= 6 {
            assert("git"@.take(6)[0] != "group:"@[0]);
        }
    }
    assert(!text::starts_with("docker"@, "group:"@)) by {
        if "docker"@.len() >= 6 {
            assert("docker"@.take(6)[0] != "group:"@[0]);
        }
    }
    assert(!text::starts_with("build"@, "group:"@)) by {
        if "build"@.len() >= 6 {
            assert("build"@.take(6)[0] != "group:"@[0]);
        }
    }
    let ws = words(text::lowercase(command_text(a.steps@)));
    if text::starts_with(filter, "group:"@) {
        assert(filter.subrange(6, filter.len() as int) =~= filter.skip(6));
    }
    if filter == "git"@ {
        if exists|i: int| 0 <= i < ws.len() && ws[i] == "git"@ {
            let i = choose|i: int| 0 <= i < ws.len() && ws[i] == "git"@;
            assert(git_words()[0] == "git"@);
        }
    }
    if filter == "docker"@ {
        if exists|i: int| 0 <= i < ws.len() && (ws[i] == "docker"@ || ws[i] == "docker-compose"@) {
            let i = choose|i: int| 0 <= i < ws.len() && (ws[i] == "docker"@ || ws[i] == "docker-compose"@);
            assert(docker_words()[0] == "docker"@);
            assert(docker_words()[1] == "docker-compose"@);
        }
    }
}

/// Whether an automation shows under a filter of the automation list.
pub fn automation_matches_filter(automation: &Automation, filter: &str) -> (r: bool)
    ensures
        r == automation_shown(*automation, filter@),
{
    let f = chars_of(filter);
    proof {
        reveal_strlit("group:");
    }
    if f.len() >= 6 && f[0] == 'g' && f[1] == 'r' && f[2] == 'o' && f[3] == 'u' && f[4] == 'p' && f[5]
        == ':' {
        assert(text::starts_with(filter@, "group:"@)) by {
            assert(f@.take(6) =~= "group:"@);
        }
        let rest = crate::text::slice_chars(&f, 6, f.len());
        let group = trim_chars(&chars_of(automation.group.as_str()));
        return eq_chars(&group, &rest);
    }
    assert(!text::starts_with(filter@, "group:"@)) by {
        if f@.len() >= 6 {
            let t = f@.take(6);
            assert(t[0] == f@[0] && t[1] == f@[1] && t[2] == f@[2] && t[3] == f@[3] && t[4] == f@[4]
                && t[5] == f@[5]);
        }
    }
    let steps = &automation.steps;
    let mut joined: Vec<char> = Vec::new();
    let mut count: usize = 0;
    let mut background = false;
    let mut i: usize = 0;
    while i < steps.len()
        invariant
            i <= steps@.len(),
            joined@ == command_text(steps@.take(i as int)),
            count == command_count(steps@.take(i as int)),
            count == 0 ==> joined@.len() == 0,
            count <= i,
            background == exists|k: int|
                0 <= k < i && (#[trigger] steps@[k]).kind@ == "command"@ && steps@[k].behavior@
                    == "background"@,
        decreases steps@.len() - i,
    {
        assert(steps@.take(i + 1).drop_last() =~= steps@.take(i as int));
        assert(steps@.take(i + 1).last() == steps@[i as int]);
        if str_eq(steps[i].kind.as_str(), "command") {
            if count > 0 {
                push_str(&mut joined, " \n ");
            }
            push_str(&mut joined, steps[i].command.as_str());
            if str_eq(steps[i].behavior.as_str(), "background") {
                background = true;
            }
            count = count + 1;
        }
        i = i + 1;
    }
    assert(steps@.take(steps@.len() as int) =~= steps@);
    let joined_text = string_of(&joined);
    let lowered = to_lowercase(joined_text.as_str());
    let c = lowered.as_str();
    proof {
        assert(seq!["git"].map_values(|t: &str| t@) =~= git_words());
        assert(seq!["docker", "docker-compose"].map_values(|t: &str| t@) =~= docker_words());
    }
    if str_eq(filter, "favorites") {
        automation.favorite
    } else if str_eq(filter, "background") {
        background
    } else if str_eq(filter, "git") {
        let tools = ["git"];
        assert(tools@ =~= seq!["git"]);
        has_word(c, &tools)
    } else if str_eq(filter, "docker") {
        let tools = ["docker", "docker-compose"];
        assert(tools@ =~= seq!["docker", "docker-compose"]);
        has_word(c, &tools)
    } else if str_eq(filter, "build") {
        has_build_command(c)
    } else {
        true
    }
}

/// The short label of a weekday key; unknown keys read as `?`.
pub open spec fn day_label(day: Seq<char>) -> Seq<char> {
    if day == "mon"@ {
        "Mon"@
    } else if day == "tue"@ {
        "Tue"@
    } else if day == "wed"@ {
        "Wed"@
    } else if day == "thu"@ {
        "Thu"@
    } else if day == "fri"@ {
        "Fri"@
    } else if day == "sat"@ {
        "Sat"@
    } else if day == "sun"@ {
        "Sun"@
    } else {
        "?"@
    }
}

/// The short label of a weekday key.
pub fn weekday_label(day: &str) -> (r: &'static str)
    ensures
        r@ == day_label(day@),
{
    if str_eq(day, "mon") {
        "Mon"
    } else if str_eq(day, "tue") {
        "Tue"
    } else if str_eq(day, "wed") {
        "Wed"
    } else if str_eq(day, "thu") {
        "Thu"
    } else if str_eq(day, "fri") {
        "Fri"
    } else if str_eq(day, "sat") {
        "Sat"
    } else if str_eq(day, "sun") {
        "Sun"
    } else {
        "?"
    }
}

/// The weekday keys, Monday first.
pub open spec fn week() -> Seq<Seq<char>> {
    seq!["mon"@, "tue"@, "wed"@, "thu"@, "fri"@, "sat"@, "sun"@]
}

/// Whether a weekday key is among the chosen days.
pub open spec fn day_chosen(days: Seq<String>, d: Seq<char>) -> bool {
    exists|i: int| 0 <= i < days.len() && days[i]@ == d
}

/// The labels of the chosen days of the first `k` weekdays, in week order,
/// joined with `, `.
pub open spec fn chosen_labels(days: Seq<String>, k: int) -> Seq<char>
    decreases k,
{
    if k <= 0 {
        Seq::empty()
    } else {
        let prev = chosen_labels(days, k - 1);
        if !day_chosen(days, week()[k - 1]) {
            prev
        } else if prev.len() == 0 {
            day_label(week()[k - 1])
        } else {
            prev + ", "@ + day_label(week()[k - 1])
        }
    }
}

/// The schedule's days: `Every day`, or the chosen days in week order.
pub open spec fn days_summary(days: Seq<String>) -> Seq<char> {
    if days.len() == 0 {
        "Every day"@
    } else {
        chosen_labels(days, 7)
    }
}

fn is_chosen_day(days: &Vec<String>, d: &str) -> (r: bool)
    ensures
        r == day_chosen(days@, d@),
{
    let mut i: usize = 0;
    while i < days.len()
        invariant
            i <= days@.len(),
            forall|k: int| 0 <= k < i ==> days@[k]@ != d@,
        decreases days@.len() - i,
    {
        if str_eq(days[i].as_str(), d) {
            return true;
        }
        i = i + 1;
    }
    false
}

/// Summarises the days of a schedule: `Every day`, or e.g. `Mon, Wed`.
pub fn format_days(days: &Vec<String>) -> (r: String)
    ensures
        r@ == days_summary(days@),
{
    if days.len() == 0 {
        return owned("Every day");
    }
    let keys = ["mon", "tue", "wed", "thu", "fri", "sat", "sun"];
    assert(keys@.map_values(|k: &str| k@) =~= week());
    let mut v: Vec<char> = Vec::new();
    let mut k: usize = 0;
    while k < 7
        invariant
            k <= 7,
            keys@.map_values(|k: &str| k@) == week(),
            keys@.len() == 7,
            v@ == chosen_labels(days@, k as int),
        decreases 7 - k,
    {
        assert(keys@.map_values(|k: &str| k@)[k as int] == keys@[k as int]@);
        let key = keys[k];
        if is_chosen_day(days, key) {
            if v.len() > 0 {
                push_str(&mut v, ", ");
            }
            push_str(&mut v, weekday_label(key));
        }
        k = k + 1;
    }
    string_of(&v)
}

/// How a schedule's trigger reads: `Sunrise`, `Sunset`, or its clock time.
pub fn format_trigger(entry: &TimedAutomation) -> (r: String)
    ensures
        entry.trigger_kind@ == "sunrise"@ ==> r@ == "Sunrise"@,
        entry.trigger_kind@ == "sunset"@ ==> r@ == "Sunset"@,
        entry.trigger_kind@ != "sunrise"@ && entry.trigger_kind@ != "sunset"@ ==> r@
            == entry.time@,
{
    proof {
        reveal_strlit("sunrise");
        reveal_strlit("sunset");
        assert("sunrise"@ != "sunset"@) by {
            assert("sunrise"@.len() != "sunset"@.len());
        }
    }
    if str_eq(entry.trigger_kind.as_str(), "sunrise") {
        owned("Sunrise")
    } else if str_eq(entry.trigger_kind.as_str(), "sunset") {
        owned("Sunset")
    } else {
        owned(entry.time.as_str())
    }
}

/// How long ago something happened, seen at `now`: just now, minutes,
/// hours, or days.
pub open spec fn ago(then: u64, now: u64) -> Seq<char> {
    let delta = crate::trash::saturating_sub(now, then);
    if delta < 60 {
        "just now"@
    } else if delta < 3600 {
        shell_alias::decimal((delta / 60) as nat) + " min ago"@
    } else if delta < 86400 {
        shell_alias::decimal((delta / 3600) as nat) + " h ago"@
    } else {
        shell_alias::decimal((delta / 86400) as nat) + " d ago"@
    }
}

/// How long ago a Unix time was, seen at `now`.
pub fn relative_time(unix_seconds: u64, now: u64) -> (r: String)
    ensures
        r@ == ago(unix_seconds, now),
{
    let delta = if now >= unix_seconds {
        now - unix_seconds
    } else {
        0
    };
    let mut v: Vec<char> = Vec::new();
    if delta < 60 {
        return owned("just now");
    } else if delta < 3600 {
        push_decimal(&mut v, delta / 60);
        push_str(&mut v, " min ago");
    } else if delta < 86400 {
        push_decimal(&mut v, delta / 3600);
        push_str(&mut v, " h ago");
    } else {
        push_decimal(&mut v, delta / 86400);
        push_str(&mut v, " d ago");
    }
    string_of(&v)
}

/// Whole days, rounded up, until an item deleted at `deleted_at` leaves the
/// Trash, seen at `now`.
pub open spec fn days_until_purge(deleted_at: u64, now: u64) -> int {
    let expires = deleted_at + TRASH_RETENTION_SECONDS;
    if expires <= now {
        0
    } else {
        (expires - now + 86399) / 86400
    }
}

/// Days left before an item deleted at `deleted_at` leaves the Trash.
pub fn days_left(deleted_at: u64, now: u64) -> (r: u64)
    requires
        deleted_at + TRASH_RETENTION_SECONDS <= u64::MAX,
    ensures
        r == days_until_purge(deleted_at, now),
{
    let expires = deleted_at + TRASH_RETENTION_SECONDS;
    if expires <= now {
        0
    } else {
        let rest = expires - now;
        rest / 86400 + if rest % 86400 == 0 {
            0
        } else {
            1
        }
    }
}

} // verus!
