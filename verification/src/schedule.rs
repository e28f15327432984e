//! The operating-system jobs that fire timed automations while EasyAlias is
//! closed: systemd user timers on Linux, launchd agents on macOS and
//! Scheduled Tasks on Windows.
//!
//! Each function here says what to write, remove or register; running
//! `systemctl`, `launchctl` or `schtasks` and touching the files is left to
//! the caller, which removes the old job before it writes a new one.

use vstd::prelude::*;
use crate::paths;
use crate::timed;
use crate::shell_alias;
use crate::tui_forms;
use crate::text::{push_str, string_of};
use crate::message::{concat2, owned, str_eq};
use crate::paths::{join_path, sun_timed_automations_checker_plist_path, sun_timed_automations_checker_launchd_label, sun_timed_automations_checker_service_path, sun_timed_automations_checker_timer_path, timed_automation_launchd_label, timed_automation_log_dir, timed_automation_plist_path, timed_automation_service_path, timed_automation_timer_path};
use crate::timed::{parse_time_of_day, push_two_digits, timed_automation_on_calendar, timed_automation_unit_name, TimedAutomation};
use crate::shell_alias::push_decimal;

verus! {

/// How often, in seconds, the shared sunrise/sunset checker runs.
pub const SUN_CHECK_INTERVAL_SECONDS: u64 = 300;

/// A file to write: where, and what.
pub struct UnitFile {
    pub path: String,
    pub content: String,
}

/// A systemd user job: the timer unit to enable and the two unit files.
pub struct SystemdJob {
    pub unit: String,
    pub service: UnitFile,
    pub timer: UnitFile,
}

/// What removing a systemd user job touches: the timer unit to disable and
/// the two unit files to delete where they exist.
pub struct SystemdRemoval {
    pub unit: String,
    pub service_path: String,
    pub timer_path: String,
}

/// The service unit that runs one timed automation.
pub open spec fn service_text(id: Seq<char>, exe: Seq<char>) -> Seq<char> {
    "[Unit]\nDescription=EasyAlias timed automation "@ + id
        + "\n\n[Service]\nType=oneshot\nExecStart="@ + exe + " --run-timed-automation "@ + id
        + "\n"@
}

/// The timer unit that fires one timed automation on its calendar.
pub open spec fn timer_text(id: Seq<char>, calendar: Seq<char>) -> Seq<char> {
    "[Unit]\nDescription=EasyAlias timed automation "@ + id
        + " schedule\n\n[Timer]\nOnCalendar="@ + calendar
        + "\nPersistent=false\n\n[Install]\nWantedBy=timers.target\n"@
}

/// The service unit of the shared sunrise/sunset checker.
pub open spec fn checker_service_text(exe: Seq<char>) -> Seq<char> {
    "[Unit]\nDescription=EasyAlias sunrise/sunset timed automations check\n\n[Service]\nType=oneshot\nExecStart="@
        + exe + " --check-sun-timed-automations\n"@
}

/// The timer unit of the shared sunrise/sunset checker: shortly after boot,
/// then every check interval, catching up after a suspend.
pub open spec fn checker_timer_text() -> Seq<char> {
    "[Unit]\nDescription=EasyAlias sunrise/sunset timed automations timer\n\n[Timer]\nOnBootSec=60\nOnUnitActiveSec="@
        + shell_alias::decimal(SUN_CHECK_INTERVAL_SECONDS as nat)
        + "\nPersistent=true\n\n[Install]\nWantedBy=timers.target\n"@
}

/// The systemd user job of one timed automation, to be removed.
pub fn unschedule_timed_automation_linux(home: &str, id: &str) -> (r: SystemdRemoval)
    ensures
        r.unit@ == "easyalias-timed-"@ + id@ + ".timer"@,
        r.service_path@ == paths::path_join(
            paths::path_join(home@, ".config/systemd/user"@),
            "easyalias-timed-"@ + id@ + ".service"@,
        ),
        r.timer_path@ == paths::path_join(
            paths::path_join(home@, ".config/systemd/user"@),
            "easyalias-timed-"@ + id@ + ".timer"@,
        ),
{
    let name = timed_automation_unit_name(id);
    SystemdRemoval {
        unit: concat2(name.as_str(), ".timer"),
        service_path: timed_automation_service_path(home, id),
        timer_path: timed_automation_timer_path(home, id),
    }
}

/// The systemd user job of a timed automation: a oneshot service that runs
/// `exe --run-timed-automation <id>` and a timer on the automation's
/// calendar. A disabled automation gets no job; an invalid time is refused.
pub fn schedule_timed_automation_linux(home: &str, exe: &str, entry: &TimedAutomation) -> (r: Result<
    Option<SystemdJob>,
    String,
>)
    ensures
        !entry.enabled ==> r matches Ok(None),
        entry.enabled ==> match timed::time_of_day(entry.time@) {
            None => r is Err && r->Err_0@ == timed::time_error(entry.time@),
            Some((h, m)) => r matches Ok(Some(job)) && job.unit@ == "easyalias-timed-"@
                + entry.id@ + ".timer"@ && job.service.path@ == paths::path_join(
                paths::path_join(home@, ".config/systemd/user"@),
                "easyalias-timed-"@ + entry.id@ + ".service"@,
            ) && job.service.content@ == service_text(entry.id@, exe@) && job.timer.path@
                == paths::path_join(
                paths::path_join(home@, ".config/systemd/user"@),
                "easyalias-timed-"@ + entry.id@ + ".timer"@,
            ) && job.timer.content@ == timer_text(
                entry.id@,
                timed::on_calendar(entry.days@, h, m),
            ),
        },
{
    if !entry.enabled {
        return Ok(None);
    }
    let calendar = match timed_automation_on_calendar(entry) {
        Ok(c) => c,
        Err(e) => {
            return Err(e);
        },
    };
    let id = entry.id.as_str();
    let mut service: Vec<char> = Vec::new();
    push_str(&mut service, "[Unit]\nDescription=EasyAlias timed automation ");
    push_str(&mut service, id);
    push_str(&mut service, "\n\n[Service]\nType=oneshot\nExecStart=");
    push_str(&mut service, exe);
    push_str(&mut service, " --run-timed-automation ");
    push_str(&mut service, id);
    push_str(&mut service, "\n");
    assert(service@ =~= service_text(entry.id@, exe@));
    let mut timer: Vec<char> = Vec::new();
    push_str(&mut timer, "[Unit]\nDescription=EasyAlias timed automation ");
    push_str(&mut timer, id);
    push_str(&mut timer, " schedule\n\n[Timer]\nOnCalendar=");
    push_str(&mut timer, calendar.as_str());
    push_str(&mut timer, "\nPersistent=false\n\n[Install]\nWantedBy=timers.target\n");
    assert(timer@ =~= timer_text(entry.id@, calendar@));
    let removal = unschedule_timed_automation_linux(home, id);
    Ok(
        Some(
            SystemdJob {
                unit: removal.unit,
                service: UnitFile { path: removal.service_path, content: string_of(&service) },
                timer: UnitFile { path: removal.timer_path, content: string_of(&timer) },
            },
        ),
    )
}

/// The shared sunrise/sunset checker job, to be removed.
pub fn unschedule_sun_timed_automations_checker_linux(home: &str) -> (r: SystemdRemoval)
    ensures
        r.unit@ == "easyalias-sun-timed-automations"@ + ".timer"@,
        r.service_path@ == paths::path_join(
            paths::path_join(home@, ".config/systemd/user"@),
            "easyalias-sun-timed-automations"@ + ".service"@,
        ),
        r.timer_path@ == paths::path_join(
            paths::path_join(home@, ".config/systemd/user"@),
            "easyalias-sun-timed-automations"@ + ".timer"@,
        ),
{
    SystemdRemoval {
        unit: concat2("easyalias-sun-timed-automations", ".timer"),
        service_path: sun_timed_automations_checker_service_path(home),
        timer_path: sun_timed_automations_checker_timer_path(home),
    }
}

/// The shared sunrise/sunset checker job: a oneshot service that runs
/// `exe --check-sun-timed-automations` and a periodic timer.
pub fn schedule_sun_timed_automations_checker_linux(home: &str, exe: &str) -> (r: SystemdJob)
    ensures
        r.unit@ == "easyalias-sun-timed-automations"@ + ".timer"@,
        r.service.path@ == paths::path_join(
            paths::path_join(home@, ".config/systemd/user"@),
            "easyalias-sun-timed-automations"@ + ".service"@,
        ),
        r.service.content@ == checker_service_text(exe@),
        r.timer.path@ == paths::path_join(
            paths::path_join(home@, ".config/systemd/user"@),
            "easyalias-sun-timed-automations"@ + ".timer"@,
        ),
        r.timer.content@ == checker_timer_text(),
{
    let mut service: Vec<char> = Vec::new();
    push_str(
        &mut service,
        "[Unit]\nDescription=EasyAlias sunrise/sunset timed automations check\n\n[Service]\nType=oneshot\nExecStart=",
    );
    push_str(&mut service, exe);
    push_str(&mut service, " --check-sun-timed-automations\n");
    assert(service@ =~= checker_service_text(exe@));
    let mut timer: Vec<char> = Vec::new();
    push_str(
        &mut timer,
        "[Unit]\nDescription=EasyAlias sunrise/sunset timed automations timer\n\n[Timer]\nOnBootSec=60\nOnUnitActiveSec=",
    );
    push_decimal(&mut timer, SUN_CHECK_INTERVAL_SECONDS);
    push_str(&mut timer, "\nPersistent=true\n\n[Install]\nWantedBy=timers.target\n");
    assert(timer@ =~= checker_timer_text());
    let removal = unschedule_sun_timed_automations_checker_linux(home);
    SystemdJob {
        unit: removal.unit,
        service: UnitFile { path: removal.service_path, content: string_of(&service) },
        timer: UnitFile { path: removal.timer_path, content: string_of(&timer) },
    }
}

/// The launchd weekday number of a weekday key: Sunday is 0, Monday 1, up to
/// Saturday 6; unknown keys read as Sunday.
pub open spec fn launchd_weekday(day: Seq<char>) -> u32 {
    if day == "sun"@ {
        0
    } else if day == "mon"@ {
        1
    } else if day == "tue"@ {
        2
    } else if day == "wed"@ {
        3
    } else if day == "thu"@ {
        4
    } else if day == "fri"@ {
        5
    } else if day == "sat"@ {
        6
    } else {
        0
    }
}

/// The launchd weekday number of a weekday key.
pub fn weekday_to_launchd(day: &str) -> (r: u32)
    ensures
        r == launchd_weekday(day@),
{
    if str_eq(day, "sun") {
        0
    } else if str_eq(day, "mon") {
        1
    } else if str_eq(day, "tue") {
        2
    } else if str_eq(day, "wed") {
        3
    } else if str_eq(day, "thu") {
        4
    } else if str_eq(day, "fri") {
        5
    } else if str_eq(day, "sat") {
        6
    } else {
        0
    }
}

/// One `StartCalendarInterval` entry: every day at `h:m`.
pub open spec fn daily_interval(h: u32, m: u32) -> Seq<char> {
    "    <dict>\n      <key>Hour</key><integer>"@ + shell_alias::decimal(h as nat)
        + "</integer>\n      <key>Minute</key><integer>"@ + shell_alias::decimal(m as nat)
        + "</integer>\n    </dict>\n"@
}

/// One `StartCalendarInterval` entry: on weekday `w` at `h:m`.
pub open spec fn weekday_interval(h: u32, m: u32, w: u32) -> Seq<char> {
    "    <dict>\n      <key>Hour</key><integer>"@ + shell_alias::decimal(h as nat)
        + "</integer>\n      <key>Minute</key><integer>"@ + shell_alias::decimal(m as nat)
        + "</integer>\n      <key>Weekday</key><integer>"@ + shell_alias::decimal(w as nat)
        + "</integer>\n    </dict>\n"@
}

/// The entries for the chosen weekdays, one after the other.
pub open spec fn weekday_intervals(days: Seq<String>, h: u32, m: u32) -> Seq<char>
    decreases days.len(),
{
    if days.len() == 0 {
        Seq::empty()
    } else {
        weekday_intervals(days.drop_last(), h, m) + weekday_interval(
            h,
            m,
            launchd_weekday(days.last()@),
        )
    }
}

/// The calendar entries of a schedule: daily, or one per chosen weekday.
pub open spec fn launchd_intervals(days: Seq<String>, h: u32, m: u32) -> Seq<char> {
    if days.len() == 0 {
        daily_interval(h, m)
    } else {
        weekday_intervals(days, h, m)
    }
}

/// The launch agent of one timed automation.
pub open spec fn timed_plist_text(
    label: Seq<char>,
    exe: Seq<char>,
    id: Seq<char>,
    intervals: Seq<char>,
    log: Seq<char>,
) -> Seq<char> {
    "<?xml version=\"1.0\" encoding=\"UTF-8\"?>\n<!DOCTYPE plist PUBLIC \"-//Apple//DTD PLIST 1.0//EN\" \"http://www.apple.com/DTDs/PropertyList-1.0.dtd\">\n<plist version=\"1.0\">\n<dict>\n  <key>Label</key>\n  <string>"@
        + label + "</string>\n  <key>ProgramArguments</key>\n  <array>\n    <string>"@ + exe
        + "</string>\n    <string>--run-timed-automation</string>\n    <string>"@ + id
        + "</string>\n  </array>\n  <key>StartCalendarInterval</key>\n  <array>\n"@ + intervals
        + "  </array>\n  <key>StandardOutPath</key>\n  <string>"@ + log
        + "</string>\n  <key>StandardErrorPath</key>\n  <string>"@ + log
        + "</string>\n  <key>RunAtLoad</key>\n  <false/>\n</dict>\n</plist>\n"@
}

/// The launch agent of the shared sunrise/sunset checker.
pub open spec fn checker_plist_text(label: Seq<char>, exe: Seq<char>) -> Seq<char> {
    "<?xml version=\"1.0\" encoding=\"UTF-8\"?>\n<!DOCTYPE plist PUBLIC \"-//Apple//DTD PLIST 1.0//EN\" \"http://www.apple.com/DTDs/PropertyList-1.0.dtd\">\n<plist version=\"1.0\">\n<dict>\n  <key>Label</key>\n  <string>"@
        + label + "</string>\n  <key>ProgramArguments</key>\n  <array>\n    <string>"@ + exe
        + "</string>\n    <string>--check-sun-timed-automations</string>\n  </array>\n  <key>StartInterval</key>\n  <integer>"@
        + shell_alias::decimal(SUN_CHECK_INTERVAL_SECONDS as nat)
        + "</integer>\n  <key>RunAtLoad</key>\n  <true/>\n</dict>\n</plist>\n"@
}

/// Appends the calendar entries of a schedule.
fn push_intervals(v: &mut Vec<char>, days: &Vec<String>, h: u32, m: u32)
    ensures
        final(v)@ == old(v)@ + launchd_intervals(days@, h, m),
{
    if days.len() == 0 {
        push_str(v, "    <dict>\n      <key>Hour</key><integer>");
        push_decimal(v, h as u64);
        push_str(v, "</integer>\n      <key>Minute</key><integer>");
        push_decimal(v, m as u64);
        push_str(v, "</integer>\n    </dict>\n");
        assert(v@ =~= old(v)@ + launchd_intervals(days@, h, m));
        return;
    }
    let ghost start = v@;
    let mut i: usize = 0;
    while i < days.len()
        invariant
            i <= days@.len(),
            v@ == start + weekday_intervals(days@.take(i as int), h, m),
        decreases days@.len() - i,
    {
        assert(days@.take(i + 1).drop_last() =~= days@.take(i as int));
        assert(days@.take(i + 1).last() == days@[i as int]);
        let w = weekday_to_launchd(days[i].as_str());
        let ghost before = v@;
        push_str(v, "    <dict>\n      <key>Hour</key><integer>");
        push_decimal(v, h as u64);
        push_str(v, "</integer>\n      <key>Minute</key><integer>");
        push_decimal(v, m as u64);
        push_str(v, "</integer>\n      <key>Weekday</key><integer>");
        push_decimal(v, w as u64);
        push_str(v, "</integer>\n    </dict>\n");
        assert(v@ =~= before + weekday_interval(h, m, w));
        i = i + 1;
    }
    assert(days@.take(days@.len() as int) =~= days@);
}

/// The launch agent of a timed automation: it runs
/// `exe --run-timed-automation <id>` at the chosen time, every day or on the
/// chosen weekdays, and logs to the automation's log file. A disabled
/// automation gets no agent; an invalid time is refused.
pub fn schedule_timed_automation_macos(home: &str, exe: &str, entry: &TimedAutomation) -> (r: Result<
    Option<UnitFile>,
    String,
>)
    ensures
        !entry.enabled ==> r matches Ok(None),
        entry.enabled ==> match timed::time_of_day(entry.time@) {
            None => r is Err && r->Err_0@ == timed::time_error(entry.time@),
            Some((h, m)) => r matches Ok(Some(agent)) && agent.path@ == paths::path_join(
                paths::path_join(home@, "Library/LaunchAgents"@),
                "dev.hannesgnann.easyalias.timed."@ + entry.id@ + ".plist"@,
            ) && agent.content@ == timed_plist_text(
                "dev.hannesgnann.easyalias.timed."@ + entry.id@,
                exe@,
                entry.id@,
                launchd_intervals(entry.days@, h, m),
                paths::path_join(
                    paths::path_join(paths::app_dir_of(home@), "timed-automation-logs"@),
                    entry.id@ + ".log"@,
                ),
            ),
        },
{
    if !entry.enabled {
        return Ok(None);
    }
    let (hour, minute) = match parse_time_of_day(entry.time.as_str()) {
        Ok(t) => t,
        Err(e) => {
            return Err(e);
        },
    };
    let id = entry.id.as_str();
    let log_dir = timed_automation_log_dir(home);
    let log_name = concat2(id, ".log");
    let log = join_path(log_dir.as_str(), log_name.as_str());
    let label = timed_automation_launchd_label(id);
    let mut v: Vec<char> = Vec::new();
    push_str(
        &mut v,
        "<?xml version=\"1.0\" encoding=\"UTF-8\"?>\n<!DOCTYPE plist PUBLIC \"-//Apple//DTD PLIST 1.0//EN\" \"http://www.apple.com/DTDs/PropertyList-1.0.dtd\">\n<plist version=\"1.0\">\n<dict>\n  <key>Label</key>\n  <string>",
    );
    push_str(&mut v, label.as_str());
    push_str(&mut v, "</string>\n  <key>ProgramArguments</key>\n  <array>\n    <string>");
    push_str(&mut v, exe);
    push_str(&mut v, "</string>\n    <string>--run-timed-automation</string>\n    <string>");
    push_str(&mut v, id);
    push_str(&mut v, "</string>\n  </array>\n  <key>StartCalendarInterval</key>\n  <array>\n");
    push_intervals(&mut v, &entry.days, hour, minute);
    push_str(&mut v, "  </array>\n  <key>StandardOutPath</key>\n  <string>");
    push_str(&mut v, log.as_str());
    push_str(&mut v, "</string>\n  <key>StandardErrorPath</key>\n  <string>");
    push_str(&mut v, log.as_str());
    push_str(&mut v, "</string>\n  <key>RunAtLoad</key>\n  <false/>\n</dict>\n</plist>\n");
    assert(v@ =~= timed_plist_text(
        label@,
        exe@,
        entry.id@,
        launchd_intervals(entry.days@, hour, minute),
        log@,
    ));
    Ok(Some(UnitFile { path: timed_automation_plist_path(home, id), content: string_of(&v) }))
}

/// The launch agent of a timed automation, to be unloaded and removed.
pub fn unschedule_timed_automation_macos(home: &str, id: &str) -> (r: String)
    ensures
        r@ == paths::path_join(
            paths::path_join(home@, "Library/LaunchAgents"@),
            "dev.hannesgnann.easyalias.timed."@ + id@ + ".plist"@,
        ),
{
    timed_automation_plist_path(home, id)
}

/// The launch agent of the shared sunrise/sunset checker: it runs
/// `exe --check-sun-timed-automations` every check interval and at login.
pub fn schedule_sun_timed_automations_checker_macos(home: &str, exe: &str) -> (r: UnitFile)
    ensures
        r.path@ == paths::path_join(
            paths::path_join(home@, "Library/LaunchAgents"@),
            "dev.hannesgnann.easyalias.sun-timed-automations"@ + ".plist"@,
        ),
        r.content@ == checker_plist_text("dev.hannesgnann.easyalias.sun-timed-automations"@, exe@),
{
    let label = sun_timed_automations_checker_launchd_label();
    let mut v: Vec<char> = Vec::new();
    push_str(
        &mut v,
        "<?xml version=\"1.0\" encoding=\"UTF-8\"?>\n<!DOCTYPE plist PUBLIC \"-//Apple//DTD PLIST 1.0//EN\" \"http://www.apple.com/DTDs/PropertyList-1.0.dtd\">\n<plist version=\"1.0\">\n<dict>\n  <key>Label</key>\n  <string>",
    );
    push_str(&mut v, label.as_str());
    push_str(&mut v, "</string>\n  <key>ProgramArguments</key>\n  <array>\n    <string>");
    push_str(&mut v, exe);
    push_str(
        &mut v,
        "</string>\n    <string>--check-sun-timed-automations</string>\n  </array>\n  <key>StartInterval</key>\n  <integer>",
    );
    push_decimal(&mut v, SUN_CHECK_INTERVAL_SECONDS);
    push_str(&mut v, "</integer>\n  <key>RunAtLoad</key>\n  <true/>\n</dict>\n</plist>\n");
    assert(v@ =~= checker_plist_text(label@, exe@));
    UnitFile { path: sun_timed_automations_checker_plist_path(home), content: string_of(&v) }
}

/// The launch agent of the shared sunrise/sunset checker, to be unloaded and
/// removed.
pub fn unschedule_sun_timed_automations_checker_macos(home: &str) -> (r: String)
    ensures
        r@ == paths::path_join(
            paths::path_join(home@, "Library/LaunchAgents"@),
            "dev.hannesgnann.easyalias.sun-timed-automations"@ + ".plist"@,
        ),
{
    sun_timed_automations_checker_plist_path(home)
}

/// The Scheduled Task name of a timed automation.
pub fn timed_automation_task_name(id: &str) -> (r: String)
    ensures
        r@ == "EasyAliasTimedAutomation_"@ + id@,
{
    concat2("EasyAliasTimedAutomation_", id)
}

/// The `schtasks` spelling of a weekday key; unknown keys read as Monday.
pub open spec fn schtasks_weekday(day: Seq<char>) -> Seq<char> {
    if day == "mon"@ {
        "MON"@
    } else if day == "tue"@ {
        "TUE"@
    } else if day == "wed"@ {
        "WED"@
    } else if day == "thu"@ {
        "THU"@
    } else if day == "fri"@ {
        "FRI"@
    } else if day == "sat"@ {
        "SAT"@
    } else if day == "sun"@ {
        "SUN"@
    } else {
        "MON"@
    }
}

/// The weekday tables of the three schedulers agree with the week: the day
/// counted `i` from Monday is launchd day `(i + 1) % 7` (Sunday is 0), its
/// `schtasks` name is its key in upper case, and its systemd name is its key
/// with the first letter in upper case.
pub proof fn lemma_weekday_tables(i: u32)
    requires
        i < 7,
    ensures
        ({
            let key = crate::clock::weekday_key_at(i);
            &&& launchd_weekday(key) == (i + 1) % 7
            &&& schtasks_weekday(key).len() == 3
            &&& forall|c: int| 0 <= c < 3 ==> schtasks_weekday(key)[c] as u32 + 32 == key[c] as u32
            &&& crate::timed::systemd_weekday(key).len() == 3
            &&& crate::timed::systemd_weekday(key)[0] as u32 + 32 == key[0] as u32
            &&& crate::timed::systemd_weekday(key)[1] == key[1]
            &&& crate::timed::systemd_weekday(key)[2] == key[2]
        }),
{
    let key = crate::clock::weekday_key_at(i);
    crate::clock::lemma_weekday_keys_in_order(i);
    crate::timed::lemma_systemd_weekday_names(key);
    crate::clock::lemma_day_keys_differ();
    reveal_strlit("mon");
    reveal_strlit("tue");
    reveal_strlit("wed");
    reveal_strlit("thu");
    reveal_strlit("fri");
    reveal_strlit("sat");
    reveal_strlit("sun");
    reveal_strlit("MON");
    reveal_strlit("TUE");
    reveal_strlit("WED");
    reveal_strlit("THU");
    reveal_strlit("FRI");
    reveal_strlit("SAT");
    reveal_strlit("SUN");
}

/// The `schtasks` spelling of a weekday key.
pub fn weekday_to_schtasks(day: &str) -> (r: &'static str)
    ensures
        r@ == schtasks_weekday(day@),
{
    if str_eq(day, "mon") {
        "MON"
    } else if str_eq(day, "tue") {
        "TUE"
    } else if str_eq(day, "wed") {
        "WED"
    } else if str_eq(day, "thu") {
        "THU"
    } else if str_eq(day, "fri") {
        "FRI"
    } else if str_eq(day, "sat") {
        "SAT"
    } else if str_eq(day, "sun") {
        "SUN"
    } else {
        "MON"
    }
}

/// The chosen weekdays in `schtasks` spelling, joined with commas.
pub open spec fn schtasks_days(days: Seq<String>) -> Seq<char>
    decreases days.len(),
{
    if days.len() == 0 {
        Seq::empty()
    } else if days.len() == 1 {
        schtasks_weekday(days[0]@)
    } else {
        schtasks_days(days.drop_last()) + ","@ + schtasks_weekday(days.last()@)
    }
}

/// The recurrence of a Scheduled Task: `DAILY`, or `WEEKLY` with the `/D`
/// day list.
pub fn timed_automation_schedule_args(entry: &TimedAutomation) -> (r: (String, Option<String>))
    ensures
        entry.days@.len() == 0 ==> r.0@ == "DAILY"@ && r.1 is None,
        entry.days@.len() > 0 ==> r.0@ == "WEEKLY"@ && r.1 is Some && r.1->Some_0@
            == schtasks_days(entry.days@),
{
    if entry.days.len() == 0 {
        return (owned("DAILY"), None);
    }
    let ghost days = entry.days@;
    let mut v: Vec<char> = Vec::new();
    let mut i: usize = 0;
    while i < entry.days.len()
        invariant
            0 < days.len(),
            i <= days.len(),
            days == entry.days@,
            i > 0 ==> v@ == schtasks_days(days.take(i as int)),
            i == 0 ==> v@.len() == 0,
        decreases days.len() - i,
    {
        assert(days.take(i + 1).drop_last() =~= days.take(i as int));
        assert(days.take(i + 1).last() == days[i as int]);
        if i > 0 {
            push_str(&mut v, ",");
        }
        let w = weekday_to_schtasks(entry.days[i].as_str());
        push_str(&mut v, w);
        assert(v@ =~= schtasks_days(days.take(i + 1)));
        i = i + 1;
    }
    assert(days.take(days.len() as int) =~= days);
    (owned("WEEKLY"), Some(string_of(&v)))
}

/// How often, in minutes, the Windows sunrise/sunset checker task runs: the
/// same interval as the other systems' checker jobs.
pub const SUN_CHECK_INTERVAL_MINUTES: u64 = 5;

/// The command line a Scheduled Task runs for a timed automation.
pub open spec fn task_run_text(exe: Seq<char>, id: Seq<char>) -> Seq<char> {
    "\""@ + exe + "\" --run-timed-automation "@ + id
}

/// The `schtasks /Create` arguments of a timed automation that starts at
/// `h:m`.
pub open spec fn create_task_args(exe: Seq<char>, entry: TimedAutomation, h: u32, m: u32) -> Seq<
    Seq<char>,
> {
    let base = seq![
        "/Create"@,
        "/TN"@,
        "EasyAliasTimedAutomation_"@ + entry.id@,
        "/TR"@,
        task_run_text(exe, entry.id@),
        "/SC"@,
        if entry.days@.len() == 0 {
            "DAILY"@
        } else {
            "WEEKLY"@
        },
        "/ST"@,
        timed::two_digits(h) + ":"@ + timed::two_digits(m),
        "/F"@,
    ];
    if entry.days@.len() == 0 {
        base
    } else {
        base + seq!["/D"@, schtasks_days(entry.days@)]
    }
}

fn push_text(v: &mut Vec<String>, s: &str)
    ensures
        tui_forms::texts(final(v)@) == tui_forms::texts(old(v)@).push(s@),
{
    let ghost before = tui_forms::texts(v@);
    v.push(owned(s));
    assert(tui_forms::texts(v@) =~= before.push(s@));
}

/// The `schtasks` arguments that register a timed automation's Scheduled
/// Task: it runs `"exe" --run-timed-automation <id>` at the chosen time,
/// daily or on the chosen weekdays. A disabled automation gets no task; an
/// invalid time is refused. The old task is to be deleted first.
pub fn schedule_timed_automation_windows(exe: &str, entry: &TimedAutomation) -> (r: Result<
    Option<Vec<String>>,
    String,
>)
    ensures
        !entry.enabled ==> r matches Ok(None),
        entry.enabled ==> match timed::time_of_day(entry.time@) {
            None => r is Err && r->Err_0@ == timed::time_error(entry.time@),
            Some((h, m)) => r matches Ok(Some(args)) && tui_forms::texts(args@) == create_task_args(
                exe@,
                *entry,
                h,
                m,
            ),
        },
{
    if !entry.enabled {
        return Ok(None);
    }
    let (hour, minute) = match parse_time_of_day(entry.time.as_str()) {
        Ok(t) => t,
        Err(e) => {
            return Err(e);
        },
    };
    let mut start: Vec<char> = Vec::new();
    push_two_digits(&mut start, hour);
    start.push(':');
    push_two_digits(&mut start, minute);
    assert(start@ =~= timed::two_digits(hour) + ":"@ + timed::two_digits(minute)) by {
        reveal_strlit(":");
    }
    let mut run: Vec<char> = Vec::new();
    push_str(&mut run, "\"");
    push_str(&mut run, exe);
    push_str(&mut run, "\" --run-timed-automation ");
    push_str(&mut run, entry.id.as_str());
    assert(run@ =~= task_run_text(exe@, entry.id@));
    let (schedule_type, days) = timed_automation_schedule_args(entry);
    let name = timed_automation_task_name(entry.id.as_str());
    let mut args: Vec<String> = Vec::new();
    push_text(&mut args, "/Create");
    push_text(&mut args, "/TN");
    push_text(&mut args, name.as_str());
    push_text(&mut args, "/TR");
    push_text(&mut args, string_of(&run).as_str());
    push_text(&mut args, "/SC");
    push_text(&mut args, schedule_type.as_str());
    push_text(&mut args, "/ST");
    push_text(&mut args, string_of(&start).as_str());
    push_text(&mut args, "/F");
    match days {
        Some(d) => {
            push_text(&mut args, "/D");
            push_text(&mut args, d.as_str());
        },
        None => {},
    }
    assert(tui_forms::texts(args@) =~= create_task_args(exe@, *entry, hour, minute));
    Ok(Some(args))
}

/// The `schtasks` arguments that delete a timed automation's Scheduled Task
/// (harmless when there is none).
pub fn unschedule_timed_automation_windows(id: &str) -> (r: Vec<String>)
    ensures
        tui_forms::texts(r@) == seq!["/Delete"@, "/TN"@, "EasyAliasTimedAutomation_"@ + id@, "/F"@],
{
    let name = timed_automation_task_name(id);
    let mut args: Vec<String> = Vec::new();
    push_text(&mut args, "/Delete");
    push_text(&mut args, "/TN");
    push_text(&mut args, name.as_str());
    push_text(&mut args, "/F");
    assert(tui_forms::texts(args@) =~= seq!["/Delete"@, "/TN"@, "EasyAliasTimedAutomation_"@ + id@, "/F"@]);
    args
}

/// The Scheduled Task of the shared sunrise/sunset checker.
pub fn sun_timed_automations_checker_task_name() -> (r: &'static str)
    ensures
        r@ == "EasyAliasSunTimedAutomations"@,
{
    "EasyAliasSunTimedAutomations"
}

/// The second, at-startup Scheduled Task of the shared checker.
pub fn sun_timed_automations_checker_startup_task_name() -> (r: String)
    ensures
        r@ == "EasyAliasSunTimedAutomations"@ + "_Startup"@,
{
    concat2(sun_timed_automations_checker_task_name(), "_Startup")
}

/// The command line the checker tasks run.
pub open spec fn checker_run_text(exe: Seq<char>) -> Seq<char> {
    "\""@ + exe + "\" --check-sun-timed-automations"@
}

/// The `schtasks` arguments of the shared sunrise/sunset checker: one task
/// every `SUN_CHECK_INTERVAL_MINUTES` minutes and one at system startup,
/// both running `"exe" --check-sun-timed-automations`. The old tasks are to
/// be deleted first.
pub fn schedule_sun_timed_automations_checker_windows(exe: &str) -> (r: (Vec<String>, Vec<String>))
    ensures
        tui_forms::texts(r.0@) == seq![
            "/Create"@,
            "/TN"@,
            "EasyAliasSunTimedAutomations"@,
            "/TR"@,
            checker_run_text(exe@),
            "/SC"@,
            "MINUTE"@,
            "/MO"@,
            shell_alias::decimal(SUN_CHECK_INTERVAL_MINUTES as nat),
            "/F"@,
        ],
        tui_forms::texts(r.1@) == seq![
            "/Create"@,
            "/TN"@,
            "EasyAliasSunTimedAutomations"@ + "_Startup"@,
            "/TR"@,
            checker_run_text(exe@),
            "/SC"@,
            "ONSTART"@,
            "/F"@,
        ],
{
    let mut run: Vec<char> = Vec::new();
    push_str(&mut run, "\"");
    push_str(&mut run, exe);
    push_str(&mut run, "\" --check-sun-timed-automations");
    assert(run@ =~= checker_run_text(exe@));
    let run = string_of(&run);
    let mut interval: Vec<char> = Vec::new();
    push_decimal(&mut interval, SUN_CHECK_INTERVAL_MINUTES);
    assert(interval@ =~= shell_alias::decimal(SUN_CHECK_INTERVAL_MINUTES as nat));
    let mut periodic: Vec<String> = Vec::new();
    push_text(&mut periodic, "/Create");
    push_text(&mut periodic, "/TN");
    push_text(&mut periodic, sun_timed_automations_checker_task_name());
    push_text(&mut periodic, "/TR");
    push_text(&mut periodic, run.as_str());
    push_text(&mut periodic, "/SC");
    push_text(&mut periodic, "MINUTE");
    push_text(&mut periodic, "/MO");
    push_text(&mut periodic, string_of(&interval).as_str());
    push_text(&mut periodic, "/F");
    let startup_name = sun_timed_automations_checker_startup_task_name();
    let mut startup: Vec<String> = Vec::new();
    push_text(&mut startup, "/Create");
    push_text(&mut startup, "/TN");
    push_text(&mut startup, startup_name.as_str());
    push_text(&mut startup, "/TR");
    push_text(&mut startup, run.as_str());
    push_text(&mut startup, "/SC");
    push_text(&mut startup, "ONSTART");
    push_text(&mut startup, "/F");
    (periodic, startup)
}

/// The `schtasks` arguments that delete both checker tasks.
pub fn unschedule_sun_timed_automations_checker_windows() -> (r: (Vec<String>, Vec<String>))
    ensures
        tui_forms::texts(r.0@) == seq!["/Delete"@, "/TN"@, "EasyAliasSunTimedAutomations"@, "/F"@],
        tui_forms::texts(r.1@) == seq![
            "/Delete"@,
            "/TN"@,
            "EasyAliasSunTimedAutomations"@ + "_Startup"@,
            "/F"@,
        ],
{
    let mut periodic: Vec<String> = Vec::new();
    push_text(&mut periodic, "/Delete");
    push_text(&mut periodic, "/TN");
    push_text(&mut periodic, sun_timed_automations_checker_task_name());
    push_text(&mut periodic, "/F");
    let startup_name = sun_timed_automations_checker_startup_task_name();
    let mut startup: Vec<String> = Vec::new();
    push_text(&mut startup, "/Delete");
    push_text(&mut startup, "/TN");
    push_text(&mut startup, startup_name.as_str());
    push_text(&mut startup, "/F");
    (periodic, startup)
}

/// Whether the Windows checker tasks must be registered (true) or deleted
/// (false) for these entries.
pub fn sync_sun_timed_automations_checker_windows(entries: &[TimedAutomation]) -> (r: bool)
    ensures
        r == timed::sun_checker_needed(entries@),
{
    timed::sync_sun_timed_automations_checker_linux(entries)
}

} // verus!
