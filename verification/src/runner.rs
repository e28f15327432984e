//! Running an automation step by step in one shell session: what each step
//! asks for, and what is reported once it ran. A failed foreground step
//! ends the run.
//!
//! Starting the shell, sending commands, waiting and stopping are left to
//! the caller, which hands back what each command printed and its exit code.

use vstd::prelude::*;
use crate::text;
use crate::shell_alias;
use crate::timed;
use crate::text::{chars_of, is_blank_str, push_all, push_str, slice_chars, starts_with_chars, string_of, trim_chars, trim_end_chars};
use crate::timed::parse_u32_chars;
use crate::message::{concat2, concat3, owned, str_eq};
use crate::shell_alias::push_decimal;
use crate::automation::{AutomationStep, MAX_AUTOMATION_COMMAND_BYTES};

verus! {

/// How many characters of a command's output are kept.
pub const MAX_AUTOMATION_OUTPUT_CHARS: usize = 20000;

/// What `String::from_utf8_lossy` makes of bytes: the text they encode,
/// with each invalid sequence shown as U+FFFD.
pub uninterp spec fn utf8_lossy(bytes: Seq<u8>) -> Seq<char>;

/// `String::from_utf8_lossy`, named by `utf8_lossy`; a function of the
/// bytes alone.
#[verifier::external_body]
fn from_utf8_lossy(bytes: &[u8]) -> (r: String)
    ensures
        r@ == utf8_lossy(bytes@),
{
    String::from_utf8_lossy(bytes).to_string()
}

/// The output of a command as shown: decoded, at most the first
/// `MAX_AUTOMATION_OUTPUT_CHARS` characters.
pub fn limited_output(bytes: &[u8]) -> (r: String)
    ensures
        r@ == (if utf8_lossy(bytes@).len() <= MAX_AUTOMATION_OUTPUT_CHARS {
            utf8_lossy(bytes@)
        } else {
            utf8_lossy(bytes@).take(MAX_AUTOMATION_OUTPUT_CHARS as int)
        }),
{
    let text = from_utf8_lossy(bytes);
    let v = chars_of(text.as_str());
    if v.len() <= MAX_AUTOMATION_OUTPUT_CHARS {
        return string_of(&v);
    }
    let kept = crate::text::slice_chars(&v, 0, MAX_AUTOMATION_OUTPUT_CHARS);
    assert(kept@ =~= v@.take(MAX_AUTOMATION_OUTPUT_CHARS as int));
    string_of(&kept)
}

/// `1 second` or `n seconds`.
pub open spec fn seconds_text(n: u64) -> Seq<char> {
    shell_alias::decimal(n as nat) + if n == 1 {
        " second"@
    } else {
        " seconds"@
    }
}

fn push_seconds(v: &mut Vec<char>, n: u64)
    ensures
        final(v)@ == old(v)@ + seconds_text(n),
{
    push_decimal(v, n);
    if n == 1 {
        push_str(v, " second");
    } else {
        push_str(v, " seconds");
    }
}

/// How a step is listed in the run view.
pub open spec fn label_of(step: AutomationStep) -> Seq<char> {
    if step.kind@ == "wait"@ {
        "Wait "@ + seconds_text(step.seconds)
    } else if step.behavior@ == "background"@ {
        step.command@ + "  (background)"@
    } else {
        step.command@
    }
}

/// How a step is listed in the run view: its wait, or its command.
pub fn step_label(step: &AutomationStep) -> (r: String)
    ensures
        r@ == label_of(*step),
{
    let mut v: Vec<char> = Vec::new();
    if str_eq(step.kind.as_str(), "wait") {
        push_str(&mut v, "Wait ");
        push_seconds(&mut v, step.seconds);
    } else if str_eq(step.behavior.as_str(), "background") {
        push_str(&mut v, step.command.as_str());
        push_str(&mut v, "  (background)");
    } else {
        push_str(&mut v, step.command.as_str());
    }
    string_of(&v)
}

/// What a step asks the runner to do.
pub enum StepAction {
    /// Pause for this many seconds.
    Wait(u64),
    /// Send the command to the session, in the background or not.
    Run(bool),
    /// The command is blank or too long; the run ends here.
    Refuse,
}

/// What a step asks the runner to do.
pub open spec fn action_of(step: AutomationStep) -> StepAction {
    if step.kind@ == "wait"@ {
        StepAction::Wait(step.seconds)
    } else if text::trim(step.command@).len() == 0 || crate::automation::utf8_len(step.command@)
        > MAX_AUTOMATION_COMMAND_BYTES {
        StepAction::Refuse
    } else {
        StepAction::Run(step.behavior@ == "background"@)
    }
}

/// What a step asks of a run without a window: a pause, or the command
/// sent to the session (in the background or not), as it stands.
pub fn headless_step(step: &AutomationStep) -> (r: StepAction)
    ensures
        step.kind@ == "wait"@ ==> r == StepAction::Wait(step.seconds),
        step.kind@ != "wait"@ ==> r == StepAction::Run(step.behavior@ == "background"@),
{
    if str_eq(step.kind.as_str(), "wait") {
        return StepAction::Wait(step.seconds);
    }
    StepAction::Run(str_eq(step.behavior.as_str(), "background"))
}

/// A step that passed validation is never refused: a wait step pauses for
/// its seconds, a command step is sent to the session, in the background
/// exactly when its behaviour says so.
pub proof fn lemma_valid_steps_run(step: AutomationStep)
    requires
        crate::automation::step_valid(step),
    ensures
        step.kind@ == "wait"@ ==> action_of(step) == StepAction::Wait(step.seconds) && 1 <= step.seconds
            <= crate::automation::MAX_WAIT_SECONDS,
        step.kind@ != "wait"@ ==> action_of(step) == StepAction::Run(step.behavior@ == "background"@),
        !(action_of(step) is Refuse),
{
    reveal_strlit("wait");
    reveal_strlit("command");
    assert("wait"@[0] != "command"@[0]);
}

/// What a step asks the runner to do.
pub fn step_action(step: &AutomationStep) -> (r: StepAction)
    ensures
        r == action_of(*step),
{
    if str_eq(step.kind.as_str(), "wait") {
        return StepAction::Wait(step.seconds);
    }
    if is_blank_str(step.command.as_str()) || step.command.as_str().len() > MAX_AUTOMATION_COMMAND_BYTES {
        return StepAction::Refuse;
    }
    StepAction::Run(str_eq(step.behavior.as_str(), "background"))
}

/// What the run view shows once a step ended: whether it succeeded, its
/// output, and, when the run stops here, why.
pub struct StepReport {
    pub success: bool,
    pub output: String,
    pub stop: Option<String>,
}

/// The report of a finished wait: `Waited n seconds.`
pub fn wait_report(seconds: u64) -> (r: StepReport)
    ensures
        r.success,
        r.output@ == "Waited "@ + seconds_text(seconds) + "."@,
        r.stop is None,
{
    let mut v: Vec<char> = Vec::new();
    push_str(&mut v, "Waited ");
    push_seconds(&mut v, seconds);
    push_str(&mut v, ".");
    StepReport { success: true, output: string_of(&v), stop: None }
}

/// `Step {n} ...`, numbered from 1.
pub open spec fn step_note(index: usize, rest: Seq<char>) -> Seq<char> {
    "Step "@ + shell_alias::decimal(index as nat + 1) + rest
}

fn step_message(index: usize, rest: &str) -> (r: String)
    requires
        index < usize::MAX,
    ensures
        r@ == step_note(index, rest@),
{
    let mut v: Vec<char> = Vec::new();
    push_str(&mut v, "Step ");
    push_decimal(&mut v, index as u64 + 1);
    push_str(&mut v, rest);
    string_of(&v)
}

/// The report of a refused command: the run ends.
pub fn refused_report(index: usize) -> (r: StepReport)
    requires
        index < usize::MAX,
    ensures
        !r.success,
        r.output@ == "Command must contain at most 16384 bytes."@,
        r.stop matches Some(m) && m@ == step_note(index, " could not be completed."@),
{
    StepReport {
        success: false,
        output: owned("Command must contain at most 16384 bytes."),
        stop: Some(step_message(index, " could not be completed.")),
    }
}

/// The report of a step whose command could not be run: the run ends.
pub fn session_error_report(index: usize, error: &str) -> (r: StepReport)
    requires
        index < usize::MAX,
    ensures
        !r.success,
        r.output@ == error@,
        r.stop matches Some(m) && m@ == step_note(index, " could not be completed."@),
{
    StepReport {
        success: false,
        output: owned(error),
        stop: Some(step_message(index, " could not be completed.")),
    }
}

/// An exit code as decimal text, with a minus sign when negative.
pub open spec fn signed_text(n: i32) -> Seq<char> {
    if n < 0 {
        "-"@ + shell_alias::decimal((-n) as nat)
    } else {
        shell_alias::decimal(n as nat)
    }
}

fn push_signed(v: &mut Vec<char>, n: i32)
    ensures
        final(v)@ == old(v)@ + signed_text(n),
{
    if n < 0 {
        push_str(v, "-");
        let magnitude: u64 = (0i64 - n as i64) as u64;
        push_decimal(v, magnitude);
    } else {
        push_decimal(v, n as u64);
    }
}

/// The printed output of a command: its trimmed standard output and
/// standard error, the nonempty ones joined by a line break.
pub open spec fn combined_output(stdout: Seq<char>, stderr: Seq<char>) -> Seq<char> {
    let a = text::trim(stdout);
    let b = text::trim(stderr);
    if a.len() == 0 {
        b
    } else if b.len() == 0 {
        a
    } else {
        a + "\n"@ + b
    }
}

/// The report of a command that ran. A background command succeeds once
/// started; a foreground one succeeds with exit code 0 and otherwise ends
/// the run.
pub open spec fn command_outcome(
    index: usize,
    stdout: Seq<char>,
    stderr: Seq<char>,
    exit_code: Option<i32>,
    background: bool,
    process_id: Option<u32>,
) -> (bool, Seq<char>, Option<Seq<char>>) {
    let out = combined_output(stdout, stderr);
    if background {
        (
            true,
            match process_id {
                Some(p) => "Started in background (PID "@ + shell_alias::decimal(p as nat) + ")."@,
                None => "Started in background."@,
            },
            None,
        )
    } else if exit_code == Some(0i32) {
        (
            true,
            if out.len() == 0 {
                "Command completed."@
            } else {
                out
            },
            None,
        )
    } else {
        (
            false,
            if out.len() == 0 {
                "Command exited with code "@ + match exit_code {
                    Some(c) => signed_text(c),
                    None => "unknown"@,
                } + "."@
            } else {
                out
            },
            Some(step_note(index, " failed. Remaining steps were not started."@)),
        )
    }
}

/// A command step succeeds exactly when it runs in the background or exits
/// with code 0; any other exit, an unknown one included, fails the step and
/// stops the run with a note naming the step. A foreground command that
/// printed nothing reports its exit code.
pub proof fn lemma_command_outcome_success(
    index: usize,
    stdout: Seq<char>,
    stderr: Seq<char>,
    exit_code: Option<i32>,
    background: bool,
    process_id: Option<u32>,
)
    ensures
        ({
            let (ok, out, stop) = command_outcome(index, stdout, stderr, exit_code, background, process_id);
            &&& ok <==> (background || exit_code == Some(0i32))
            &&& stop is None <==> ok
            &&& !ok ==> stop == Some(
                "Step "@ + shell_alias::decimal(index as nat + 1)
                    + " failed. Remaining steps were not started."@,
            )
            &&& (!ok && combined_output(stdout, stderr).len() == 0 && exit_code matches Some(c)) ==> out
                == "Command exited with code "@ + signed_text(exit_code->0) + "."@
            &&& (ok && !background && combined_output(stdout, stderr).len() == 0) ==> out
                == "Command completed."@
        }),
{
}

/// Reports a command that ran in the session.
pub fn command_report(
    index: usize,
    stdout: &str,
    stderr: &str,
    exit_code: Option<i32>,
    background: bool,
    process_id: Option<u32>,
) -> (r: StepReport)
    requires
        index < usize::MAX,
    ensures
        ({
            let (ok, out, stop) = command_outcome(index, stdout@, stderr@, exit_code, background, process_id);
            &&& r.success == ok
            &&& r.output@ == out
            &&& match stop {
                Some(m) => r.stop matches Some(s) && s@ == m,
                None => r.stop is None,
            }
        }),
        r.success <==> (background || exit_code == Some(0i32)),
        r.stop is None <==> r.success,
{
    proof {
        lemma_command_outcome_success(index, stdout@, stderr@, exit_code, background, process_id);
    }
    if background {
        let text = match process_id {
            Some(p) => {
                let mut v: Vec<char> = Vec::new();
                push_str(&mut v, "Started in background (PID ");
                push_decimal(&mut v, p as u64);
                push_str(&mut v, ").");
                string_of(&v)
            },
            None => owned("Started in background."),
        };
        return StepReport { success: true, output: text, stop: None };
    }
    let a = trim_chars(&chars_of(stdout));
    let b = trim_chars(&chars_of(stderr));
    let mut out: Vec<char> = Vec::new();
    if a.len() == 0 {
        push_all(&mut out, &b);
    } else if b.len() == 0 {
        push_all(&mut out, &a);
    } else {
        push_all(&mut out, &a);
        out.push('\n');
        push_all(&mut out, &b);
        proof {
            reveal_strlit("\n");
        }
    }
    assert(out@ =~= combined_output(stdout@, stderr@));
    let ok = match exit_code {
        Some(c) => c == 0,
        None => false,
    };
    if ok {
        let text = if out.len() == 0 {
            owned("Command completed.")
        } else {
            string_of(&out)
        };
        return StepReport { success: true, output: text, stop: None };
    }
    let text = if out.len() == 0 {
        let mut v: Vec<char> = Vec::new();
        push_str(&mut v, "Command exited with code ");
        match exit_code {
            Some(c) => push_signed(&mut v, c),
            None => push_str(&mut v, "unknown"),
        }
        push_str(&mut v, ".");
        string_of(&v)
    } else {
        string_of(&out)
    };
    StepReport {
        success: false,
        output: text,
        stop: Some(step_message(index, " failed. Remaining steps were not started.")),
    }
}

/// Whether a step run without a window counts as done: a background
/// command once started, a foreground one with exit code 0.
pub fn headless_step_succeeded(step: &AutomationStep, exit_code: Option<i32>) -> (r: bool)
    ensures
        r == (step.behavior@ == "background"@ || exit_code == Some(0i32)),
{
    if str_eq(step.behavior.as_str(), "background") {
        return true;
    }
    match exit_code {
        Some(c) => c == 0,
        None => false,
    }
}

/// Why a step run without a window failed:
/// `Step {n} failed (exit code {c}): {output}`.
pub fn headless_failure(index: usize, exit_code: Option<i32>, stdout: &[u8]) -> (r: String)
    requires
        index < usize::MAX,
    ensures
        r@ == step_note(index, " failed (exit code "@) + match exit_code {
            Some(c) => signed_text(c),
            None => "unknown"@,
        } + "): "@ + (if utf8_lossy(stdout@).len() <= MAX_AUTOMATION_OUTPUT_CHARS {
            utf8_lossy(stdout@)
        } else {
            utf8_lossy(stdout@).take(MAX_AUTOMATION_OUTPUT_CHARS as int)
        }),
{
    let mut v: Vec<char> = Vec::new();
    push_str(&mut v, "Step ");
    push_decimal(&mut v, index as u64 + 1);
    push_str(&mut v, " failed (exit code ");
    match exit_code {
        Some(c) => push_signed(&mut v, c),
        None => push_str(&mut v, "unknown"),
    }
    push_str(&mut v, "): ");
    let out = limited_output(stdout);
    push_str(&mut v, out.as_str());
    string_of(&v)
}

/// The folder an automation runs in, before it is checked: the trimmed
/// path, with `~` and `~/...` taken from the home directory.
pub open spec fn working_directory_of(value: Seq<char>, home: Seq<char>) -> Seq<char> {
    let t = text::trim(value);
    if t == "~"@ {
        home
    } else if text::starts_with(t, "~/"@) {
        crate::paths::path_join(home, t.subrange(2, t.len() as int))
    } else {
        t
    }
}

/// Expands an automation's working directory against the home directory.
pub fn working_directory_path(value: &str, home: &str) -> (r: String)
    ensures
        r@ == working_directory_of(value@, home@),
{
    let t = trim_chars(&chars_of(value));
    proof {
        reveal_strlit("~");
        reveal_strlit("~/");
    }
    if t.len() == 1 && t[0] == '~' {
        assert(t@ =~= "~"@);
        return owned(home);
    }
    assert(t@ != "~"@) by {
        if t@.len() == 1 {
            assert(t@[0] != "~"@[0]);
        }
    }
    if t.len() >= 2 && t[0] == '~' && t[1] == '/' {
        assert(text::starts_with(t@, "~/"@)) by {
            assert(t@.take(2) =~= "~/"@);
        }
        let rest = string_of(&crate::text::slice_chars(&t, 2, t.len()));
        return crate::paths::join_path(home, rest.as_str());
    }
    assert(!text::starts_with(t@, "~/"@)) by {
        if t@.len() >= 2 {
            assert(t@.take(2)[0] == t@[0]);
            assert(t@.take(2)[1] == t@[1]);
        }
    }
    string_of(&t)
}

/// The line a session prints once a foreground command finished, followed
/// by its exit code.
pub fn done_marker() -> (r: &'static str)
    ensures
        r@ == "__EASYALIAS_AUTOMATION_DONE__"@,
{
    "__EASYALIAS_AUTOMATION_DONE__"
}

/// The line a session prints once a background command started, followed
/// by its process id.
pub fn background_marker() -> (r: &'static str)
    ensures
        r@ == "__EASYALIAS_AUTOMATION_BG__"@,
{
    "__EASYALIAS_AUTOMATION_BG__"
}

/// What is written to the session's shell for one command: the command in
/// a group (output merged, or discarded and the group put in the
/// background), then an `echo` of the marker with the exit code or the
/// background process id.
pub open spec fn session_input_text(command: Seq<char>, background: bool) -> Seq<char> {
    if background {
        "{ "@ + command + " ; } >/dev/null 2>&1 &\necho \""@ + "__EASYALIAS_AUTOMATION_BG__"@
            + "$!\"\n"@
    } else {
        "{ "@ + command + " ; } 2>&1\necho \""@ + "__EASYALIAS_AUTOMATION_DONE__"@ + "$?\"\n"@
    }
}

/// The text to send to the session's shell for one command.
pub fn session_command_input(command: &str, background: bool) -> (r: String)
    ensures
        r@ == session_input_text(command@, background),
{
    let mut v: Vec<char> = Vec::new();
    push_str(&mut v, "{ ");
    push_str(&mut v, command);
    if background {
        push_str(&mut v, " ; } >/dev/null 2>&1 &\necho \"");
        push_str(&mut v, background_marker());
        push_str(&mut v, "$!\"\n");
    } else {
        push_str(&mut v, " ; } 2>&1\necho \"");
        push_str(&mut v, done_marker());
        push_str(&mut v, "$?\"\n");
    }
    string_of(&v)
}

/// `str::parse::<i32>`: an optional `+` or `-`, then one or more ASCII
/// digits, and a value that fits.
pub open spec fn parse_i32(s: Seq<char>) -> Option<i32> {
    let negative = s.len() > 0 && s[0] == '-';
    let d = if s.len() > 0 && (s[0] == '+' || s[0] == '-') {
        s.drop_first()
    } else {
        s
    };
    if d.len() == 0 || !timed::all_digits(d) {
        None
    } else if negative {
        if timed::digits_value(d) > 2147483648 {
            None
        } else {
            Some((0 - timed::digits_value(d)) as i32)
        }
    } else if timed::digits_value(d) > 2147483647 {
        None
    } else {
        Some(timed::digits_value(d) as i32)
    }
}

/// `str::parse::<i32>` on characters.
pub fn parse_i32_chars(s: &Vec<char>) -> (r: Option<i32>)
    ensures
        r == parse_i32(s@),
{
    let signed = s.len() > 0 && (s[0] == '+' || s[0] == '-');
    let negative = s.len() > 0 && s[0] == '-';
    let d = if signed {
        slice_chars(s, 1, s.len())
    } else {
        slice_chars(s, 0, s.len())
    };
    assert(d@ =~= (if s@.len() > 0 && (s@[0] == '+' || s@[0] == '-') {
        s@.drop_first()
    } else {
        s@
    }));
    if d.len() > 0 && d[0] == '+' {
        assert(!timed::all_digits(d@)) by {
            assert(d@[0] == '+');
        }
        return None;
    }
    let value = match parse_u32_chars(&d) {
        Some(v) => v,
        None => {
            return None;
        },
    };
    assert(d@.len() > 0 && timed::all_digits(d@) && timed::digits_value(d@) == value);
    if negative {
        if value > 2147483648 {
            None
        } else {
            let n: i64 = 0 - (value as i64);
            Some(n as i32)
        }
    } else if value > 2147483647 {
        None
    } else {
        Some(value as i32)
    }
}

/// What one command in the session gave: the exit code of a foreground
/// command and its output, or the process id of a background one.
pub struct SessionResult {
    pub exit_code: Option<i32>,
    pub stdout: String,
    pub process_id: Option<u32>,
}

/// Text cut to the first `MAX_AUTOMATION_OUTPUT_CHARS` characters.
pub open spec fn limited(s: Seq<char>) -> Seq<char> {
    if s.len() <= MAX_AUTOMATION_OUTPUT_CHARS {
        s
    } else {
        s.take(MAX_AUTOMATION_OUTPUT_CHARS as int)
    }
}

/// Reads the lines a session prints for one command until its marker.
pub struct SessionReader {
    pub background: bool,
    /// The lines before the marker, each ended by `\n`.
    pub collected: Vec<char>,
}

/// What reading one more line gives: nothing yet (the line is kept for a
/// foreground command, skipped for a background one), or the result once
/// the line starts with the marker.
pub open spec fn read_step(background: bool, collected: Seq<char>, line: Seq<char>) -> (
    Seq<char>,
    Option<(Option<i32>, Seq<char>, Option<u32>)>,
) {
    if background {
        if text::starts_with(line, "__EASYALIAS_AUTOMATION_BG__"@) {
            (
                collected,
                Some(
                    (
                        None,
                        Seq::empty(),
                        timed::parse_u32(
                            text::trim(line.skip("__EASYALIAS_AUTOMATION_BG__"@.len() as int)),
                        ),
                    ),
                ),
            )
        } else {
            (collected, None)
        }
    } else if text::starts_with(line, "__EASYALIAS_AUTOMATION_DONE__"@) {
        (
            collected,
            Some(
                (
                    parse_i32(text::trim(line.skip("__EASYALIAS_AUTOMATION_DONE__"@.len() as int))),
                    limited(text::trim_end(collected)),
                    None,
                ),
            ),
        )
    } else {
        (collected + line + seq!['\n'], None)
    }
}

impl SessionReader {
    /// A reader for one command.
    pub fn new(background: bool) -> (r: Self)
        ensures
            r.background == background,
            r.collected@.len() == 0,
    {
        SessionReader { background, collected: Vec::new() }
    }

    /// Takes one line of the session's output (see `read_step`).
    pub fn feed(&mut self, line: &str) -> (r: Option<SessionResult>)
        ensures
            final(self).background == old(self).background,
            final(self).collected@ == read_step(old(self).background, old(self).collected@, line@).0,
            match read_step(old(self).background, old(self).collected@, line@).1 {
                Some((code, out, pid)) => r is Some && r->Some_0.exit_code == code
                    && r->Some_0.stdout@ == out && r->Some_0.process_id == pid,
                None => r is None,
            },
    {
        let l = chars_of(line);
        let marker = if self.background {
            chars_of(background_marker())
        } else {
            chars_of(done_marker())
        };
        if !starts_with_chars(&l, &marker) {
            if !self.background {
                push_all(&mut self.collected, &l);
                self.collected.push('\n');
            }
            return None;
        }
        let rest = trim_chars(&slice_chars(&l, marker.len(), l.len()));
        assert(l@.subrange(marker@.len() as int, l@.len() as int) =~= l@.skip(marker@.len() as int));
        if self.background {
            return Some(SessionResult { exit_code: None, stdout: String::new(), process_id: parse_u32_chars(&rest) });
        }
        let out = trim_end_chars(&self.collected);
        let kept = if out.len() <= MAX_AUTOMATION_OUTPUT_CHARS {
            slice_chars(&out, 0, out.len())
        } else {
            slice_chars(&out, 0, MAX_AUTOMATION_OUTPUT_CHARS)
        };
        assert(kept@ =~= limited(out@));
        Some(SessionResult { exit_code: parse_i32_chars(&rest), stdout: string_of(&kept), process_id: None })
    }
}

} // verus!
