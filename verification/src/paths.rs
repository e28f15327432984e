//! Where every file EasyAlias owns lives, given the home directory.
//!
//! Paths are plain strings joined the way a Unix path is joined: a relative
//! piece is added after a single `/`, an absolute piece replaces the base.

use vstd::prelude::*;
use crate::text::{chars_of, eq_chars, push_all, push_str, slice_chars, starts_with_chars, string_of};
use crate::message::{concat2, str_eq};
use crate::timed::timed_automation_unit_name;

verus! {

/// `base` joined with `rel`: an absolute `rel` replaces `base`; otherwise
/// `rel` follows `base`, separated by one `/` unless `base` is empty or
/// already ends with one.
pub open spec fn path_join(base: Seq<char>, rel: Seq<char>) -> Seq<char> {
    if rel.len() > 0 && rel[0] == '/' {
        rel
    } else if base.len() == 0 {
        rel
    } else if base.last() == '/' {
        base + rel
    } else {
        base + "/"@ + rel
    }
}

/// Joins a path piece onto a base path.
pub fn join_path(base: &str, rel: &str) -> (r: String)
    ensures
        r@ == path_join(base@, rel@),
{
    let b = chars_of(base);
    let t = chars_of(rel);
    if t.len() > 0 && t[0] == '/' {
        return string_of(&t);
    }
    if b.len() == 0 {
        return string_of(&t);
    }
    let mut v = b.clone();
    if b[b.len() - 1] != '/' {
        v.push('/');
    }
    push_str(&mut v, rel);
    proof {
        reveal_strlit("/");
    }
    assert(v@ =~= path_join(base@, rel@));
    string_of(&v)
}

/// The private directory below the home directory.
pub open spec fn app_dir_of(home: Seq<char>) -> Seq<char> {
    path_join(home, ".easyalias"@)
}

/// The private directory below the home directory: `~/.easyalias`.
pub fn app_dir(home: &str) -> (r: String)
    ensures
        r@ == app_dir_of(home@),
{
    join_path(home, ".easyalias")
}

/// A file inside the private directory.
fn app_file(home: &str, name: &str) -> (r: String)
    ensures
        r@ == path_join(app_dir_of(home@), name@),
{
    let dir = app_dir(home);
    join_path(dir.as_str(), name)
}

/// The stored aliases: `~/.easyalias/config.json`.
pub fn config_file(home: &str) -> (r: String)
    ensures
        r@ == path_join(app_dir_of(home@), "config.json"@),
{
    app_file(home, "config.json")
}

/// The alias file that shell startup files source: `~/.easyalias/aliases.sh`.
pub fn aliases_file(home: &str) -> (r: String)
    ensures
        r@ == path_join(app_dir_of(home@), "aliases.sh"@),
{
    app_file(home, "aliases.sh")
}

/// Deleted aliases: `~/.easyalias/trash.json`.
pub fn trash_file(home: &str) -> (r: String)
    ensures
        r@ == path_join(app_dir_of(home@), "trash.json"@),
{
    app_file(home, "trash.json")
}

/// The automations: `~/.easyalias/automations.json`.
pub fn automations_file(home: &str) -> (r: String)
    ensures
        r@ == path_join(app_dir_of(home@), "automations.json"@),
{
    app_file(home, "automations.json")
}

/// Deleted automations: `~/.easyalias/automations-trash.json`.
pub fn automation_trash_file(home: &str) -> (r: String)
    ensures
        r@ == path_join(app_dir_of(home@), "automations-trash.json"@),
{
    app_file(home, "automations-trash.json")
}

/// The schedules: `~/.easyalias/timed-automations.json`.
pub fn timed_automations_file(home: &str) -> (r: String)
    ensures
        r@ == path_join(app_dir_of(home@), "timed-automations.json"@),
{
    app_file(home, "timed-automations.json")
}

/// Where scheduled runs write their output: `~/.easyalias/timed-automation-logs`.
pub fn timed_automation_log_dir(home: &str) -> (r: String)
    ensures
        r@ == path_join(app_dir_of(home@), "timed-automation-logs"@),
{
    app_file(home, "timed-automation-logs")
}

/// The chosen sunrise/sunset region: `~/.easyalias/sun-location.json`.
pub fn sun_location_file(home: &str) -> (r: String)
    ensures
        r@ == path_join(app_dir_of(home@), "sun-location.json"@),
{
    app_file(home, "sun-location.json")
}

/// The desktop settings: `~/.easyalias/settings.json`.
pub fn settings_file(home: &str) -> (r: String)
    ensures
        r@ == path_join(app_dir_of(home@), "settings.json"@),
{
    app_file(home, "settings.json")
}

/// The terminal edition's settings: `~/.easyalias/tui-settings.json`.
pub fn tui_settings_file(home: &str) -> (r: String)
    ensures
        r@ == path_join(app_dir_of(home@), "tui-settings.json"@),
{
    app_file(home, "tui-settings.json")
}

/// The marker that records that the shell import was offered once.
pub fn import_marker_file(home: &str) -> (r: String)
    ensures
        r@ == path_join(app_dir_of(home@), ".shell-import-v1"@),
{
    app_file(home, ".shell-import-v1")
}

/// The directory of systemd user units: `~/.config/systemd/user`.
pub fn systemd_user_dir(home: &str) -> (r: String)
    ensures
        r@ == path_join(home@, ".config/systemd/user"@),
{
    join_path(home, ".config/systemd/user")
}

/// A unit file in the systemd user directory.
fn systemd_unit_file(home: &str, unit: &str, suffix: &str) -> (r: String)
    ensures
        r@ == path_join(path_join(home@, ".config/systemd/user"@), unit@ + suffix@),
{
    let dir = systemd_user_dir(home);
    let name = concat2(unit, suffix);
    join_path(dir.as_str(), name.as_str())
}

/// The service unit of one timed automation.
pub fn timed_automation_service_path(home: &str, id: &str) -> (r: String)
    ensures
        r@ == path_join(
            path_join(home@, ".config/systemd/user"@),
            "easyalias-timed-"@ + id@ + ".service"@,
        ),
{
    let unit = timed_automation_unit_name(id);
    systemd_unit_file(home, unit.as_str(), ".service")
}

/// The timer unit of one timed automation.
pub fn timed_automation_timer_path(home: &str, id: &str) -> (r: String)
    ensures
        r@ == path_join(
            path_join(home@, ".config/systemd/user"@),
            "easyalias-timed-"@ + id@ + ".timer"@,
        ),
{
    let unit = timed_automation_unit_name(id);
    systemd_unit_file(home, unit.as_str(), ".timer")
}

/// The service unit of the shared sunrise/sunset checker.
pub fn sun_timed_automations_checker_service_path(home: &str) -> (r: String)
    ensures
        r@ == path_join(
            path_join(home@, ".config/systemd/user"@),
            "easyalias-sun-timed-automations"@ + ".service"@,
        ),
{
    systemd_unit_file(home, "easyalias-sun-timed-automations", ".service")
}

/// The timer unit of the shared sunrise/sunset checker.
pub fn sun_timed_automations_checker_timer_path(home: &str) -> (r: String)
    ensures
        r@ == path_join(
            path_join(home@, ".config/systemd/user"@),
            "easyalias-sun-timed-automations"@ + ".timer"@,
        ),
{
    systemd_unit_file(home, "easyalias-sun-timed-automations", ".timer")
}

/// The launchd label of one timed automation.
pub fn timed_automation_launchd_label(id: &str) -> (r: String)
    ensures
        r@ == "dev.hannesgnann.easyalias.timed."@ + id@,
{
    concat2("dev.hannesgnann.easyalias.timed.", id)
}

/// The launchd label of the shared sunrise/sunset checker.
pub fn sun_timed_automations_checker_launchd_label() -> (r: String)
    ensures
        r@ == "dev.hannesgnann.easyalias.sun-timed-automations"@,
{
    crate::message::owned("dev.hannesgnann.easyalias.sun-timed-automations")
}

/// A property list in `~/Library/LaunchAgents`, named after its label.
fn launch_agent_file(home: &str, label: &str) -> (r: String)
    ensures
        r@ == path_join(path_join(home@, "Library/LaunchAgents"@), label@ + ".plist"@),
{
    let dir = join_path(home, "Library/LaunchAgents");
    let name = concat2(label, ".plist");
    join_path(dir.as_str(), name.as_str())
}

/// The launch agent of one timed automation.
pub fn timed_automation_plist_path(home: &str, id: &str) -> (r: String)
    ensures
        r@ == path_join(
            path_join(home@, "Library/LaunchAgents"@),
            "dev.hannesgnann.easyalias.timed."@ + id@ + ".plist"@,
        ),
{
    let label = timed_automation_launchd_label(id);
    launch_agent_file(home, label.as_str())
}

/// The launch agent of the shared sunrise/sunset checker.
pub fn sun_timed_automations_checker_plist_path(home: &str) -> (r: String)
    ensures
        r@ == path_join(
            path_join(home@, "Library/LaunchAgents"@),
            "dev.hannesgnann.easyalias.sun-timed-automations"@ + ".plist"@,
        ),
{
    let label = sun_timed_automations_checker_launchd_label();
    launch_agent_file(home, label.as_str())
}

/// The saved access grant to the home folder, inside the app's data directory.
pub fn bookmark_file(data_dir: &str) -> (r: String)
    ensures
        r@ == path_join(data_dir@, "home.bookmark"@),
{
    join_path(data_dir, "home.bookmark")
}

/// The access grant of earlier versions, which pointed at `.zshrc` only.
pub fn legacy_bookmark_file(data_dir: &str) -> (r: String)
    ensures
        r@ == path_join(data_dir@, "zshrc.bookmark"@),
{
    join_path(data_dir, "zshrc.bookmark")
}

/// Where copies of shell startup files are kept before they are changed.
pub fn backups_dir(data_dir: &str) -> (r: String)
    ensures
        r@ == path_join(data_dir@, "backups"@),
{
    join_path(data_dir, "backups")
}

/// `s` without the `/` characters at its end.
pub open spec fn trim_trailing_slashes(s: Seq<char>) -> Seq<char>
    decreases s.len(),
{
    if s.len() > 0 && s.last() == '/' {
        trim_trailing_slashes(s.drop_last())
    } else {
        s
    }
}

/// How a path is shown: below the home directory as `~/rest`, elsewhere as is.
pub open spec fn home_display(home: Seq<char>, path: Seq<char>) -> Seq<char> {
    let h = trim_trailing_slashes(home);
    if path == h {
        "~/"@
    } else if path.len() > h.len() && path.subrange(0, h.len() as int) == h && path[h.len() as int]
        == '/' {
        "~/"@ + path.subrange(h.len() as int + 1, path.len() as int)
    } else {
        path
    }
}

/// Shortens a path below the home directory for display, e.g.
/// `/home/name/.easyalias` becomes `~/.easyalias`.
pub fn display_home_path(home: &str, path: &str) -> (r: String)
    ensures
        r@ == home_display(home@, path@),
{
    let h0 = chars_of(home);
    let p = chars_of(path);
    let mut n: usize = h0.len();
    assert(h0@.subrange(0, n as int) =~= h0@);
    while n > 0 && h0[n - 1] == '/'
        invariant
            n <= h0@.len(),
            trim_trailing_slashes(h0@) == trim_trailing_slashes(h0@.subrange(0, n as int)),
        decreases n,
    {
        assert(h0@.subrange(0, n as int).drop_last() =~= h0@.subrange(0, n - 1));
        n = n - 1;
    }
    let h = slice_chars(&h0, 0, n);
    assert(trim_trailing_slashes(h0@) == h@);
    if eq_chars(&p, &h) {
        return crate::message::owned("~/");
    }
    if p.len() > n && p[n] == '/' && starts_with_chars(&p, &h) {
        assert(p@.take(n as int) =~= p@.subrange(0, n as int));
        let mut v: Vec<char> = Vec::new();
        v.push('~');
        v.push('/');
        let rest = slice_chars(&p, n + 1, p.len());
        push_all(&mut v, &rest);
        proof {
            reveal_strlit("~/");
        }
        assert(v@ =~= home_display(home@, path@));
        return string_of(&v);
    }
    assert(p@.take(n as int) =~= p@.subrange(0, n as int));
    string_of(&p)
}

/// The shell binary that runs automations: zsh for zsh users, bash otherwise.
pub fn automation_shell_binary(shell_name: &str) -> (r: &'static str)
    ensures
        shell_name@ == "zsh"@ ==> r@ == "/bin/zsh"@,
        shell_name@ != "zsh"@ ==> r@ == "/bin/bash"@,
{
    if str_eq(shell_name, "zsh") {
        "/bin/zsh"
    } else {
        "/bin/bash"
    }
}

} // verus!
