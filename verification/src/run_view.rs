//! The run view of the terminal edition: the steps of a running automation
//! with their status and output, updated by what the worker reports, and
//! the keys that move through it.
//!
//! The worker itself (the shell session, the clock, killing processes) is
//! left to the caller, which hands each report to `RunView::apply`.

use vstd::prelude::*;
use crate::automation::Automation;
use crate::runner::{label_of, step_label};
use crate::text_input::{Key, KeyCode};
use crate::message::owned;

verus! {

/// Where a step of a run stands.
#[derive(Clone, Copy, PartialEq, Eq, Structural)]
pub enum StepStatus {
    Pending,
    Running,
    Success,
    Error,
    Skipped,
}

/// A step as the run view lists it.
pub struct RunStep {
    pub label: String,
    pub status: StepStatus,
    pub output: String,
}

/// What the worker reports.
pub enum RunEvent {
    /// The step of this number started.
    StepStarted(usize),
    /// The step of this number ended with this status and output; the
    /// optional text says why the run stops.
    StepFinished(usize, StepStatus, String, Option<String>),
    /// The shell session could not be started.
    SessionFailed(String),
    /// The run is over.
    Done,
}

/// A run as the run view shows it.
pub struct RunView {
    pub automation_id: String,
    pub name: String,
    pub steps: Vec<RunStep>,
    pub running: bool,
    pub cancel_requested: bool,
    pub error: String,
    /// The step the worker is at.
    pub current: usize,
    /// The step whose output is shown.
    pub selected: usize,
    /// Whether the selection follows the worker.
    pub follow: bool,
    pub scroll: u16,
}

/// What the view says when a stopped run is over.
pub open spec fn stopped_note() -> Seq<char> {
    "Automation stopped. A background process that already started keeps running."@
}

/// A step is over once it succeeded, failed or was skipped.
pub open spec fn settled(s: StepStatus) -> bool {
    s == StepStatus::Success || s == StepStatus::Error || s == StepStatus::Skipped
}

/// The status a step has once the run is over: a step that never started
/// or never ended is skipped.
pub open spec fn closed_status(s: StepStatus) -> StepStatus {
    if s == StepStatus::Pending || s == StepStatus::Running {
        StepStatus::Skipped
    } else {
        s
    }
}

/// The parts of a step that a report changes: its status and output.
pub open spec fn step_fields(s: RunStep) -> (StepStatus, Seq<char>) {
    (s.status, s.output@)
}

/// Two lists of steps with the same labels.
pub open spec fn same_labels(a: Seq<RunStep>, b: Seq<RunStep>) -> bool {
    a.len() == b.len() && forall|i: int| 0 <= i < a.len() ==> #[trigger] a[i].label == b[i].label
}

/// What a report does to the run view.
pub open spec fn applied(v: RunView, w: RunView, event: RunEvent) -> bool {
    &&& w.automation_id == v.automation_id
    &&& w.name == v.name
    &&& w.cancel_requested == v.cancel_requested
    &&& same_labels(w.steps@, v.steps@)
    &&& match event {
        RunEvent::StepStarted(i) => {
            &&& w.current == i
            &&& forall|j: int|
                0 <= j < v.steps@.len() ==> #[trigger] step_fields(w.steps@[j]) == if j == i {
                    (StepStatus::Running, v.steps@[j].output@)
                } else {
                    step_fields(v.steps@[j])
                }
            &&& (if v.follow {
                w.selected == i && w.scroll == 0
            } else {
                w.selected == v.selected && w.scroll == v.scroll
            })
            &&& w.follow == v.follow && w.error == v.error && w.running == v.running
        },
        RunEvent::StepFinished(i, status, output, stop) => {
            &&& forall|j: int|
                0 <= j < v.steps@.len() ==> #[trigger] step_fields(w.steps@[j]) == if j == i {
                    (status, output@)
                } else {
                    step_fields(v.steps@[j])
                }
            &&& match stop {
                Some(m) => w.error@ == m@,
                None => w.error == v.error,
            }
            &&& w.current == v.current && w.selected == v.selected && w.scroll == v.scroll
            &&& w.follow == v.follow && w.running == v.running
        },
        RunEvent::SessionFailed(m) => {
            &&& w.error@ == m@
            &&& forall|j: int|
                0 <= j < v.steps@.len() ==> #[trigger] step_fields(w.steps@[j]) == step_fields(
                    v.steps@[j],
                )
            &&& w.current == v.current && w.selected == v.selected && w.scroll == v.scroll
            &&& w.follow == v.follow && w.running == v.running
        },
        RunEvent::Done => {
            &&& !w.running
            &&& forall|j: int|
                0 <= j < v.steps@.len() ==> #[trigger] step_fields(w.steps@[j]) == (
                    closed_status(v.steps@[j].status),
                    v.steps@[j].output@,
                )
            &&& (if v.cancel_requested {
                w.error@ == stopped_note()
            } else {
                w.error == v.error
            })
            &&& w.current == v.current && w.selected == v.selected && w.scroll == v.scroll
            &&& w.follow == v.follow
        },
    }
}

/// What a key does in the run view.
pub enum RunKey {
    /// Close the view.
    Close,
    /// Stop the run.
    Stop,
    /// Run the automation again.
    Restart,
    /// Keep the view open.
    Stay,
}

/// What the caller does after a key in the run view: Esc and `q` close it,
/// `s` stops the run, `r` runs a finished automation again.
pub open spec fn run_key_decision(v: RunView, key: Key) -> RunKey {
    let code = key.code;
    if code == KeyCode::Esc || code == KeyCode::Char('q') {
        RunKey::Close
    } else if code == KeyCode::Char('s') {
        RunKey::Stop
    } else if code == KeyCode::Char('r') && !v.running {
        RunKey::Restart
    } else {
        RunKey::Stay
    }
}

/// The selection, follow mode and scroll after a key: Up/`k` and Down/`j`
/// select another step and stop following, Page Up/Down scroll the
/// output, `f` follows the worker again.
pub open spec fn run_view_after(v: RunView, key: Key) -> (usize, bool, u16) {
    let code = key.code;
    let n = v.steps@.len() as int;
    if code == KeyCode::Up || code == KeyCode::Char('k') {
        ((if v.selected > 0 {
            v.selected - 1
        } else {
            0
        }) as usize, false, 0)
    } else if code == KeyCode::Down || code == KeyCode::Char('j') {
        let last = if n > 0 {
            n - 1
        } else {
            0
        };
        ((if v.selected + 1 <= last {
            v.selected + 1
        } else {
            last
        }) as usize, false, 0)
    } else if code == KeyCode::PageUp {
        (v.selected, v.follow, (if v.scroll >= 10 {
            v.scroll - 10
        } else {
            0
        }) as u16)
    } else if code == KeyCode::PageDown {
        (v.selected, v.follow, (if v.scroll + 10 <= u16::MAX {
            v.scroll + 10
        } else {
            u16::MAX as int
        }) as u16)
    } else if code == KeyCode::Char('f') {
        (v.current, true, 0)
    } else {
        (v.selected, v.follow, v.scroll)
    }
}

impl RunView {
    /// The view of a run that is starting: every step pending, the
    /// selection following the worker.
    pub fn start(automation: &Automation) -> (r: RunView)
        ensures
            r.automation_id == automation.id,
            r.name == automation.name,
            r.steps@.len() == automation.steps@.len(),
            forall|i: int|
                0 <= i < r.steps@.len() ==> {
                    &&& (#[trigger] r.steps@[i]).label@ == label_of(automation.steps@[i])
                    &&& r.steps@[i].status == StepStatus::Pending
                    &&& r.steps@[i].output@.len() == 0
                },
            r.running,
            !r.cancel_requested,
            r.error@.len() == 0,
            r.current == 0 && r.selected == 0 && r.follow && r.scroll == 0,
    {
        let mut steps: Vec<RunStep> = Vec::new();
        let mut i: usize = 0;
        while i < automation.steps.len()
            invariant
                i <= automation.steps.len(),
                steps@.len() == i,
                forall|j: int|
                    0 <= j < i ==> {
                        &&& (#[trigger] steps@[j]).label@ == label_of(automation.steps@[j])
                        &&& steps@[j].status == StepStatus::Pending
                        &&& steps@[j].output@.len() == 0
                    },
            decreases automation.steps.len() - i,
        {
            steps.push(
                RunStep {
                    label: step_label(&automation.steps[i]),
                    status: StepStatus::Pending,
                    output: String::new(),
                },
            );
            i = i + 1;
        }
        RunView {
            automation_id: automation.id.clone(),
            name: automation.name.clone(),
            steps,
            running: true,
            cancel_requested: false,
            error: String::new(),
            current: 0,
            selected: 0,
            follow: true,
            scroll: 0,
        }
    }

    /// Marks the run as stopped by the user; tells whether the caller has
    /// to kill the session now (not when the run is over or already being
    /// stopped).
    pub fn request_stop(&mut self) -> (kill: bool)
        ensures
            kill == (old(self).running && !old(self).cancel_requested),
            final(self).cancel_requested == (old(self).cancel_requested || kill),
            final(self).running == old(self).running,
            final(self).steps == old(self).steps,
            final(self).error == old(self).error,
    {
        if !self.running || self.cancel_requested {
            return false;
        }
        self.cancel_requested = true;
        true
    }

    /// Whether the run is over without an error.
    pub fn succeeded(&self) -> (r: bool)
        ensures
            r == (!self.running && self.error@.len() == 0),
    {
        !self.running && crate::text::chars_of(self.error.as_str()).len() == 0
    }

    fn set_step(&mut self, i: usize, status: StepStatus, output: Option<String>)
        requires
            i < old(self).steps@.len(),
        ensures
            same_labels(final(self).steps@, old(self).steps@),
            forall|j: int|
                0 <= j < old(self).steps@.len() && j != i ==> #[trigger] final(self).steps@[j]
                    == old(self).steps@[j],
            final(self).steps@[i as int].status == status,
            final(self).steps@[i as int].output@ == match output {
                Some(o) => o@,
                None => old(self).steps@[i as int].output@,
            },
            final(self).automation_id == old(self).automation_id,
            final(self).name == old(self).name,
            final(self).running == old(self).running,
            final(self).cancel_requested == old(self).cancel_requested,
            final(self).error == old(self).error,
            final(self).current == old(self).current,
            final(self).selected == old(self).selected,
            final(self).follow == old(self).follow,
            final(self).scroll == old(self).scroll,
    {
        let mut steps: Vec<RunStep> = Vec::new();
        std::mem::swap(&mut steps, &mut self.steps);
        let mut step = steps.remove(i);
        step.status = status;
        match output {
            Some(o) => {
                step.output = o;
            },
            None => {},
        }
        steps.insert(i, step);
        self.steps = steps;
    }

    /// Applies one report of the worker.
    pub fn apply(&mut self, event: RunEvent)
        ensures
            applied(*old(self), *final(self), event),
    {
        let ghost v0 = *self;
        match event {
            RunEvent::StepStarted(i) => {
                self.current = i;
                if i < self.steps.len() {
                    self.set_step(i, StepStatus::Running, None);
                }
                if self.follow {
                    self.selected = i;
                    self.scroll = 0;
                }
            },
            RunEvent::StepFinished(i, status, output, stop) => {
                if i < self.steps.len() {
                    self.set_step(i, status, Some(output));
                }
                match stop {
                    Some(m) => {
                        self.error = m;
                    },
                    None => {},
                }
            },
            RunEvent::SessionFailed(m) => {
                self.error = m;
            },
            RunEvent::Done => {
                if self.cancel_requested {
                    self.error = owned(
                        "Automation stopped. A background process that already started keeps running.",
                    );
                }
                let n = self.steps.len();
                let mut i: usize = 0;
                while i < n
                    invariant
                        n == self.steps@.len(),
                        n == v0.steps@.len(),
                        i <= n,
                        self.automation_id == v0.automation_id,
                        self.name == v0.name,
                        self.cancel_requested == v0.cancel_requested,
                        self.running == v0.running,
                        self.current == v0.current,
                        self.selected == v0.selected,
                        self.scroll == v0.scroll,
                        self.follow == v0.follow,
                        v0.cancel_requested ==> self.error@ == stopped_note(),
                        !v0.cancel_requested ==> self.error == v0.error,
                        same_labels(self.steps@, v0.steps@),
                        forall|j: int|
                            0 <= j < n ==> #[trigger] step_fields(self.steps@[j]) == if j < i {
                                (closed_status(v0.steps@[j].status), v0.steps@[j].output@)
                            } else {
                                step_fields(v0.steps@[j])
                            },
                    decreases n - i,
                {
                    let ghost prev = self.steps@;
                    assert(step_fields(prev[i as int]) == step_fields(v0.steps@[i as int]));
                    let s = self.steps[i].status;
                    if s == StepStatus::Pending || s == StepStatus::Running {
                        self.set_step(i, StepStatus::Skipped, None);
                    }
                    assert forall|j: int| 0 <= j < n implies #[trigger] step_fields(self.steps@[j]) == if j < i + 1 {
                        (closed_status(v0.steps@[j].status), v0.steps@[j].output@)
                    } else {
                        step_fields(v0.steps@[j])
                    } by {
                        assert(step_fields(prev[j]) == if j < i {
                            (closed_status(v0.steps@[j].status), v0.steps@[j].output@)
                        } else {
                            step_fields(v0.steps@[j])
                        });
                    }
                    i = i + 1;
                }
                self.running = false;
            },
        }
    }

    /// Handles a key in the run view; tells the caller what to do next.
    pub fn key(&mut self, key: &Key) -> (r: RunKey)
        ensures
            r == run_key_decision(*old(self), *key),
            (final(self).selected, final(self).follow, final(self).scroll) == (if r is Stay {
                run_view_after(*old(self), *key)
            } else {
                (old(self).selected, old(self).follow, old(self).scroll)
            }),
            final(self).steps == old(self).steps,
            final(self).running == old(self).running,
            final(self).cancel_requested == old(self).cancel_requested,
            final(self).error == old(self).error,
            final(self).current == old(self).current,
    {
        let code = key.code;
        if code == KeyCode::Esc || code == KeyCode::Char('q') {
            return RunKey::Close;
        }
        if code == KeyCode::Char('s') {
            return RunKey::Stop;
        }
        if code == KeyCode::Char('r') && !self.running {
            return RunKey::Restart;
        }
        if code == KeyCode::Up || code == KeyCode::Char('k') {
            self.follow = false;
            if self.selected > 0 {
                self.selected = self.selected - 1;
            }
            self.scroll = 0;
        } else if code == KeyCode::Down || code == KeyCode::Char('j') {
            self.follow = false;
            let last = if self.steps.len() > 0 {
                self.steps.len() - 1
            } else {
                0
            };
            if self.selected < last {
                self.selected = self.selected + 1;
            } else {
                self.selected = last;
            }
            self.scroll = 0;
        } else if code == KeyCode::PageUp {
            if self.scroll >= 10 {
                self.scroll = self.scroll - 10;
            } else {
                self.scroll = 0;
            }
        } else if code == KeyCode::PageDown {
            if self.scroll <= u16::MAX - 10 {
                self.scroll = self.scroll + 10;
            } else {
                self.scroll = u16::MAX;
            }
        } else if code == KeyCode::Char('f') {
            self.follow = true;
            self.selected = self.current;
            self.scroll = 0;
        }
        RunKey::Stay
    }
}

/// Once the worker reports that the run is over, no step is left pending
/// or running, and the run is no longer running.
pub proof fn lemma_done_settles_steps(v: RunView, w: RunView)
    requires
        applied(v, w, RunEvent::Done),
    ensures
        !w.running,
        forall|j: int| 0 <= j < w.steps@.len() ==> settled(#[trigger] w.steps@[j].status),
{
    assert forall|j: int| 0 <= j < w.steps@.len() implies settled(#[trigger] w.steps@[j].status) by {
        assert(step_fields(w.steps@[j]) == (
            closed_status(v.steps@[j].status),
            v.steps@[j].output@,
        ));
    }
}

} // verus!
