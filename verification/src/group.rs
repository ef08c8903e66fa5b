//! The run of one group of cases on one server context: starting the
//! server, warming it up, running the cases one by one, restarting the
//! server when it dies, and giving up when it cannot be started. The
//! caller performs each step and reports what came of it.
use vstd::prelude::*;
use crate::server::port_busy_error;
use crate::text::{dec, extend_str, string_of};

verus! {

/// Where the run of a case group is.
#[derive(Clone, Copy, Debug, PartialEq, Eq, Structural)]
pub enum GroupPhase {
    /// Nothing has been done yet.
    Begin,
    /// The port is being checked.
    CheckingPort,
    /// The first server is starting.
    Starting,
    /// The first server is being waited for.
    Waiting,
    /// The server is being warmed up.
    WarmingUp,
    /// The server is being checked before case `next`.
    Announcing,
    /// The server had died before case `next`; a new one is starting.
    Restarting,
    /// The server restarted before case `next` is being waited for.
    RestartWaiting,
    /// Case `next` is running.
    Running,
    /// Case `next` crashed the server; a new one is starting.
    CrashRestarting,
    /// The server restarted after case `next` is being waited for.
    CrashWaiting,
    /// A failure of case `next` is being recorded; no pause follows.
    Recording,
    /// The pause after case `next`.
    Sleeping,
    /// The group is over.
    Finished,
}

/// The state of the run of a case group.
#[derive(Clone, Copy, Debug, PartialEq, Eq, Structural)]
pub struct GroupRun {
    pub phase: GroupPhase,
    /// The number of the current server start (it names its log).
    pub attempt: usize,
    /// The case being run or next to run.
    pub next: usize,
    /// The number of cases in the group.
    pub cases: usize,
    /// The server port.
    pub port: u16,
}

/// What the caller reports back after a step.
#[derive(Clone, Debug)]
pub enum GroupEvent {
    /// Begin the run.
    Begin,
    /// Whether the port was already taken.
    PortChecked { busy: bool },
    /// The server start: `Some(error)` when it failed.
    ServerStarted { error: Option<String> },
    /// The wait for the server: `Some(error)` when it did not come up.
    ServerReady { error: Option<String> },
    /// The warm-up is over.
    WarmedUp,
    /// Whether the server had exited when a case was about to start.
    ServerChecked { exited: bool },
    /// A case was run and recorded; whether it crashed the server.
    CaseRecorded { crashed: bool },
    /// A failure was recorded or logged.
    FailureRecorded,
    /// The pause after a case is over.
    Slept,
}

/// The kinds of step the caller performs next.
#[derive(Clone, Copy, Debug, PartialEq, Eq, Structural)]
pub enum StepKind {
    /// Check whether the port is taken.
    CheckPort,
    /// Start the server (its log named by `attempt`).
    StartServer,
    /// Wait for the server to serve the model.
    WaitReady,
    /// Give up on the group with `text` as the error: report it, stop the
    /// server if one runs, record the cases as `startup_failed` where the
    /// group records startup failures.
    FailGroup,
    /// Warm the server up.
    Warmup,
    /// Write the header of case `case` and check the server.
    AnnounceCase,
    /// Log the dead server, stop it, and start a new one (`attempt`).
    RestartBeforeCase,
    /// Run case `case`, record its outcome, and report whether the server
    /// crashed.
    RunCase,
    /// Record case `case` as `restart_failed` with `text` as the error.
    RecordRestartFailure,
    /// Report the crash, stop the server, and start a new one (`attempt`).
    RestartAfterCrash,
    /// Log `text` for a restart that failed after a crash.
    LogRestartFailure,
    /// Pause between cases.
    SleepBetweenCases,
    /// Stop the server and pause before the next group; the group ran.
    FinishGroup,
    /// Nothing more to do (the event did not fit the phase).
    Ignore,
}

/// A step for the caller: its kind, the server start number and case it
/// concerns, and its text (an error or a log line), empty where unused.
#[derive(Clone, Debug)]
pub struct GroupStep {
    pub kind: StepKind,
    pub attempt: usize,
    pub case: usize,
    pub text: String,
}

/// The text of an optional error.
pub open spec fn error_text(e: Option<String>) -> Option<Seq<char>> {
    match e {
        Some(s) => Some(s@),
        None => None,
    }
}

/// The next case, or the end of the group.
pub open spec fn case_or_finish(s: GroupRun, next: usize) -> (GroupRun, StepKind, Seq<char>) {
    if next < s.cases {
        (GroupRun { phase: GroupPhase::Announcing, next, ..s }, StepKind::AnnounceCase, Seq::empty())
    } else {
        (GroupRun { phase: GroupPhase::Finished, next, ..s }, StepKind::FinishGroup, Seq::empty())
    }
}

/// The state after an event and the step that follows, with its text.
pub open spec fn transition(s: GroupRun, e: GroupEvent) -> (GroupRun, StepKind, Seq<char>) {
    match (s.phase, e) {
        (GroupPhase::Begin, GroupEvent::Begin) => (
            GroupRun { phase: GroupPhase::CheckingPort, ..s },
            StepKind::CheckPort,
            Seq::empty(),
        ),
        (GroupPhase::CheckingPort, GroupEvent::PortChecked { busy }) => if busy {
            (GroupRun { phase: GroupPhase::Finished, ..s }, StepKind::FailGroup, port_busy_text(s.port))
        } else {
            (GroupRun { phase: GroupPhase::Starting, attempt: 1, ..s }, StepKind::StartServer, Seq::empty())
        },
        (GroupPhase::Starting, GroupEvent::ServerStarted { error }) => match error_text(error) {
            Some(t) => (
                GroupRun { phase: GroupPhase::Finished, ..s },
                StepKind::FailGroup,
                "启动 llama-server 失败: "@ + t,
            ),
            None => (GroupRun { phase: GroupPhase::Waiting, ..s }, StepKind::WaitReady, Seq::empty()),
        },
        (GroupPhase::Waiting, GroupEvent::ServerReady { error }) => match error_text(error) {
            Some(t) => (
                GroupRun { phase: GroupPhase::Finished, ..s },
                StepKind::FailGroup,
                "等待服务启动失败: "@ + t,
            ),
            None => (GroupRun { phase: GroupPhase::WarmingUp, ..s }, StepKind::Warmup, Seq::empty()),
        },
        (GroupPhase::WarmingUp, GroupEvent::WarmedUp) => case_or_finish(s, s.next),
        (GroupPhase::Announcing, GroupEvent::ServerChecked { exited }) => if exited {
            (
                GroupRun { phase: GroupPhase::Restarting, attempt: (s.attempt + 1) as usize, ..s },
                StepKind::RestartBeforeCase,
                Seq::empty(),
            )
        } else {
            (GroupRun { phase: GroupPhase::Running, ..s }, StepKind::RunCase, Seq::empty())
        },
        (GroupPhase::Restarting, GroupEvent::ServerStarted { error }) => match error_text(error) {
            Some(t) => (GroupRun { phase: GroupPhase::Recording, ..s }, StepKind::RecordRestartFailure, t),
            None => (GroupRun { phase: GroupPhase::RestartWaiting, ..s }, StepKind::WaitReady, Seq::empty()),
        },
        (GroupPhase::RestartWaiting, GroupEvent::ServerReady { error }) => match error_text(error) {
            Some(_) => (
                GroupRun { phase: GroupPhase::Recording, ..s },
                StepKind::RecordRestartFailure,
                "服务重启后未就绪"@,
            ),
            None => (GroupRun { phase: GroupPhase::Running, ..s }, StepKind::RunCase, Seq::empty()),
        },
        (GroupPhase::Running, GroupEvent::CaseRecorded { crashed }) => if crashed {
            (
                GroupRun { phase: GroupPhase::CrashRestarting, attempt: (s.attempt + 1) as usize, ..s },
                StepKind::RestartAfterCrash,
                Seq::empty(),
            )
        } else {
            (GroupRun { phase: GroupPhase::Sleeping, ..s }, StepKind::SleepBetweenCases, Seq::empty())
        },
        (GroupPhase::CrashRestarting, GroupEvent::ServerStarted { error }) => match error_text(error) {
            Some(t) => (
                GroupRun { phase: GroupPhase::Recording, ..s },
                StepKind::LogRestartFailure,
                "restart_failed_after_crash: "@ + t + "\n"@,
            ),
            None => (GroupRun { phase: GroupPhase::CrashWaiting, ..s }, StepKind::WaitReady, Seq::empty()),
        },
        (GroupPhase::CrashWaiting, GroupEvent::ServerReady { .. }) => (
            GroupRun { phase: GroupPhase::Sleeping, ..s },
            StepKind::SleepBetweenCases,
            Seq::empty(),
        ),
        (GroupPhase::Recording, GroupEvent::FailureRecorded) => case_or_finish(s, (s.next + 1) as usize),
        (GroupPhase::Sleeping, GroupEvent::Slept) => case_or_finish(s, (s.next + 1) as usize),
        _ => (s, StepKind::Ignore, Seq::empty()),
    }
}

/// The error when the port is taken.
pub open spec fn port_busy_text(port: u16) -> Seq<char> {
    "端口 "@ + dec(port as nat) + " 已被占用，拒绝复用旧服务"@
}

/// Whether a group run can take its next event without overflowing its
/// counters: the start number and the case index stay below `usize::MAX`.
pub open spec fn counters_fit(s: GroupRun) -> bool {
    s.attempt < usize::MAX && s.next < usize::MAX
}

impl GroupRun {
    /// The run of a group of `cases` cases on `port`, before anything.
    pub fn new(cases: usize, port: u16) -> (r: GroupRun)
        ensures
            r == (GroupRun { phase: GroupPhase::Begin, attempt: 1, next: 0, cases, port }),
    {
        GroupRun { phase: GroupPhase::Begin, attempt: 1, next: 0, cases, port }
    }

    /// Takes in what came of the last step and gives the next one (see
    /// `transition`); an event that does not fit the phase changes nothing.
    pub fn step(&mut self, event: GroupEvent) -> (s: GroupStep)
        requires
            counters_fit(*old(self)),
        ensures
            (*final(self), s.kind, s.text@) == transition(*old(self), event),
            s.attempt == final(self).attempt,
            s.case == final(self).next,
    {
        proof {
            reveal_strlit("");
        }
        let (kind, text): (StepKind, String) = match (self.phase, event) {
            (GroupPhase::Begin, GroupEvent::Begin) => {
                self.phase = GroupPhase::CheckingPort;
                (StepKind::CheckPort, String::new())
            },
            (GroupPhase::CheckingPort, GroupEvent::PortChecked { busy }) => {
                if busy {
                    self.phase = GroupPhase::Finished;
                    (StepKind::FailGroup, port_busy_error(self.port))
                } else {
                    self.phase = GroupPhase::Starting;
                    self.attempt = 1;
                    (StepKind::StartServer, String::new())
                }
            },
            (GroupPhase::Starting, GroupEvent::ServerStarted { error }) => match error {
                Some(t) => {
                    self.phase = GroupPhase::Finished;
                    (StepKind::FailGroup, prefixed("启动 llama-server 失败: ", t.as_str(), ""))
                },
                None => {
                    self.phase = GroupPhase::Waiting;
                    (StepKind::WaitReady, String::new())
                },
            },
            (GroupPhase::Waiting, GroupEvent::ServerReady { error }) => match error {
                Some(t) => {
                    self.phase = GroupPhase::Finished;
                    (StepKind::FailGroup, prefixed("等待服务启动失败: ", t.as_str(), ""))
                },
                None => {
                    self.phase = GroupPhase::WarmingUp;
                    (StepKind::Warmup, String::new())
                },
            },
            (GroupPhase::WarmingUp, GroupEvent::WarmedUp) => self.next_case_or_finish(),
            (GroupPhase::Announcing, GroupEvent::ServerChecked { exited }) => {
                if exited {
                    self.phase = GroupPhase::Restarting;
                    self.attempt = self.attempt + 1;
                    (StepKind::RestartBeforeCase, String::new())
                } else {
                    self.phase = GroupPhase::Running;
                    (StepKind::RunCase, String::new())
                }
            },
            (GroupPhase::Restarting, GroupEvent::ServerStarted { error }) => match error {
                Some(t) => {
                    self.phase = GroupPhase::Recording;
                    (StepKind::RecordRestartFailure, t)
                },
                None => {
                    self.phase = GroupPhase::RestartWaiting;
                    (StepKind::WaitReady, String::new())
                },
            },
            (GroupPhase::RestartWaiting, GroupEvent::ServerReady { error }) => match error {
                Some(_) => {
                    self.phase = GroupPhase::Recording;
                    (StepKind::RecordRestartFailure, "服务重启后未就绪".to_owned())
                },
                None => {
                    self.phase = GroupPhase::Running;
                    (StepKind::RunCase, String::new())
                },
            },
            (GroupPhase::Running, GroupEvent::CaseRecorded { crashed }) => {
                if crashed {
                    self.phase = GroupPhase::CrashRestarting;
                    self.attempt = self.attempt + 1;
                    (StepKind::RestartAfterCrash, String::new())
                } else {
                    self.phase = GroupPhase::Sleeping;
                    (StepKind::SleepBetweenCases, String::new())
                }
            },
            (GroupPhase::CrashRestarting, GroupEvent::ServerStarted { error }) => match error {
                Some(t) => {
                    self.phase = GroupPhase::Recording;
                    (StepKind::LogRestartFailure, prefixed("restart_failed_after_crash: ", t.as_str(), "\n"))
                },
                None => {
                    self.phase = GroupPhase::CrashWaiting;
                    (StepKind::WaitReady, String::new())
                },
            },
            (GroupPhase::CrashWaiting, GroupEvent::ServerReady { .. }) => {
                self.phase = GroupPhase::Sleeping;
                (StepKind::SleepBetweenCases, String::new())
            },
            (GroupPhase::Recording, GroupEvent::FailureRecorded) => {
                self.next = self.next + 1;
                self.next_case_or_finish()
            },
            (GroupPhase::Sleeping, GroupEvent::Slept) => {
                self.next = self.next + 1;
                self.next_case_or_finish()
            },
            _ => (StepKind::Ignore, String::new()),
        };
        GroupStep { kind, attempt: self.attempt, case: self.next, text }
    }

    /// Moves on to case `next`, or finishes the group past the last case.
    fn next_case_or_finish(&mut self) -> (r: (StepKind, String))
        ensures
            (*final(self), r.0, r.1@) == case_or_finish(*old(self), old(self).next),
    {
        if self.next < self.cases {
            self.phase = GroupPhase::Announcing;
            (StepKind::AnnounceCase, String::new())
        } else {
            self.phase = GroupPhase::Finished;
            (StepKind::FinishGroup, String::new())
        }
    }
}

/// `head`, `middle` and `tail` written one after the other.
fn prefixed(head: &str, middle: &str, tail: &str) -> (s: String)
    ensures
        s@ == head@ + middle@ + tail@,
{
    let mut v: Vec<char> = Vec::new();
    extend_str(&mut v, head);
    extend_str(&mut v, middle);
    extend_str(&mut v, tail);
    string_of(&v)
}

/// A group run only moves forward: no step goes back to an earlier case,
/// and the group is reported as run only once every case has had its turn.
pub proof fn law_group_run_moves_forward(s: GroupRun, e: GroupEvent)
    requires
        counters_fit(s),
    ensures
        transition(s, e).0.next >= s.next,
        transition(s, e).1 == StepKind::FinishGroup ==> transition(s, e).0.next >= s.cases,
{
}

/// A server restart always uses a new start number (and so a new log).
pub proof fn law_restarts_use_a_new_attempt(s: GroupRun, e: GroupEvent)
    requires
        counters_fit(s),
        transition(s, e).1 == StepKind::RestartBeforeCase || transition(s, e).1 == StepKind::RestartAfterCrash,
    ensures
        transition(s, e).0.attempt == s.attempt + 1,
{
}

/// Every case that has a live server when its turn comes is run, on that
/// same case and server start: whether the server was found running, or
/// died and came back after a restart before the case.
pub proof fn law_cases_with_a_live_server_are_run(s: GroupRun, exited: bool, error: Option<String>)
    ensures
        s.phase == GroupPhase::Announcing && !exited ==> {
            let t = transition(s, GroupEvent::ServerChecked { exited });
            &&& t.1 == StepKind::RunCase
            &&& t.0.phase == GroupPhase::Running
            &&& t.0.next == s.next
            &&& t.0.attempt == s.attempt
        },
        s.phase == GroupPhase::RestartWaiting && error is None ==> {
            let t = transition(s, GroupEvent::ServerReady { error });
            &&& t.1 == StepKind::RunCase
            &&& t.0.phase == GroupPhase::Running
            &&& t.0.next == s.next
            &&& t.0.attempt == s.attempt
        },
{
}

/// A case is never passed over in silence: the pause that leads on to the
/// next case only follows a case that was run, and the run only moves on to
/// a later case after that pause or after a failure was recorded for the
/// case.
pub proof fn law_no_case_is_passed_over(s: GroupRun, e: GroupEvent)
    requires
        counters_fit(s),
    ensures
        transition(s, e).1 == StepKind::SleepBetweenCases ==> s.phase == GroupPhase::Running
            || s.phase == GroupPhase::CrashWaiting,
        transition(s, e).0.next != s.next ==> s.phase == GroupPhase::Sleeping || s.phase
            == GroupPhase::Recording,
        transition(s, e).0.phase == GroupPhase::Recording && s.phase != GroupPhase::Recording ==> transition(s, e).1
            == StepKind::RecordRestartFailure || transition(s, e).1 == StepKind::LogRestartFailure,
{
}

/// A restart before a case that fails, at its start or while it is waited
/// for, is recorded against that case.
pub proof fn law_failed_restarts_are_recorded(s: GroupRun, t: String)
    ensures
        s.phase == GroupPhase::Restarting ==> {
            let r = transition(s, GroupEvent::ServerStarted { error: Some(t) });
            r.1 == StepKind::RecordRestartFailure && r.0.next == s.next && r.2 == t@
        },
        s.phase == GroupPhase::RestartWaiting ==> {
            let r = transition(s, GroupEvent::ServerReady { error: Some(t) });
            r.1 == StepKind::RecordRestartFailure && r.0.next == s.next
        },
{
}

/// A group starts by checking its port; a taken port ends the group with
/// the port's error, a free one starts the first server; a first server
/// that fails to start or to come up ends the group, one that comes up is
/// warmed up; a case that crashed the server is followed by a restart with
/// a new start number for the same case, and a case that did not by the
/// pause that leads on to the next.
pub proof fn law_group_start_and_crash_steps(s: GroupRun, busy: bool, error: Option<String>, crashed: bool)
    requires
        counters_fit(s),
    ensures
        s.phase == GroupPhase::Begin ==> transition(s, GroupEvent::Begin).1 == StepKind::CheckPort,
        s.phase == GroupPhase::CheckingPort && busy ==> transition(s, GroupEvent::PortChecked { busy }).1
            == StepKind::FailGroup && transition(s, GroupEvent::PortChecked { busy }).2 == port_busy_text(s.port),
        s.phase == GroupPhase::CheckingPort && !busy ==> transition(s, GroupEvent::PortChecked { busy }).1
            == StepKind::StartServer,
        s.phase == GroupPhase::Starting ==> (transition(s, GroupEvent::ServerStarted { error }).1
            == StepKind::FailGroup <==> error is Some),
        s.phase == GroupPhase::Waiting ==> (transition(s, GroupEvent::ServerReady { error }).1
            == StepKind::FailGroup <==> error is Some),
        s.phase == GroupPhase::Waiting && error is None ==> transition(s, GroupEvent::ServerReady { error }).1
            == StepKind::Warmup,
        s.phase == GroupPhase::Running && crashed ==> {
            let t = transition(s, GroupEvent::CaseRecorded { crashed });
            t.1 == StepKind::RestartAfterCrash && t.0.next == s.next && t.0.attempt == s.attempt + 1
        },
        s.phase == GroupPhase::Running && !crashed ==> {
            let t = transition(s, GroupEvent::CaseRecorded { crashed });
            t.1 == StepKind::SleepBetweenCases && t.0.next == s.next
        },
        s.phase == GroupPhase::Sleeping ==> {
            let t = transition(s, GroupEvent::Slept);
            t.0.next == s.next + 1 && (t.1 == StepKind::AnnounceCase <==> s.next + 1 < s.cases)
        },
{
}

} // verus!
