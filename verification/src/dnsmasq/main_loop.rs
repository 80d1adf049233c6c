//! The main loop: which command follows on which event, from startup to the end.

use crate::dnsmasq::services::{
    on_signal, planned, startup_steps, steps_of, stop_after_failure, stop_at_end, stops_after, stops_at_end, Caught, Plan,
    Running, Step, StopStep, Task,
};
use crate::dnsmasq::RunResult;
use vstd::prelude::*;

verus! {

/// What the main loop is told.
#[derive(Debug, Clone, Copy, PartialEq, Eq, Structural)]
pub enum MainEvent {
    /// The last command was carried out.
    Done,
    /// The last command could not be carried out.
    Failed,
    /// A signal came.
    Signal(Caught),
}

/// What the main loop asks for.
#[derive(Debug, Clone, Copy, PartialEq, Eq, Structural)]
pub enum Command {
    /// Carry out a step of startup.
    Do(Step),
    /// Wait for a signal.
    Await,
    /// Have the configuration read again, and wait for a signal.
    Reload,
    /// Stop a service.
    Stop(StopStep),
    /// End.
    Exit(RunResult),
}

/// Where the main loop is.
#[derive(Debug)]
pub enum Phase {
    /// It carries out the step with this number.
    Starting(usize),
    /// It waits for signals.
    Serving,
    /// It stops services, of which those from a number on are left.
    Stopping { result: RunResult, stops: Vec<StopStep>, next: usize },
    /// It has ended.
    Ended(RunResult),
}

/// The main loop.
#[derive(Debug)]
pub struct MainLoop {
    pub steps: Vec<Step>,
    pub phase: Phase,
    pub running: Running,
}

/// Where the main loop is, as a value.
#[verifier::ext_equal]
pub enum PhaseView {
    Starting(int),
    Serving,
    Stopping { result: RunResult, left: Seq<StopStep> },
    Ended(RunResult),
}

/// The main loop, as a value.
#[verifier::ext_equal]
pub struct MainView {
    pub steps: Seq<Step>,
    pub phase: PhaseView,
    pub running: Running,
}

impl View for MainLoop {
    type V = MainView;

    open spec fn view(&self) -> MainView {
        MainView {
            steps: self.steps@,
            phase: match self.phase {
                Phase::Starting(i) => PhaseView::Starting(i as int),
                Phase::Serving => PhaseView::Serving,
                Phase::Stopping { result, stops, next } => PhaseView::Stopping { result, left: stops@.skip(next as int) },
                Phase::Ended(result) => PhaseView::Ended(result),
            },
            running: self.running,
        }
    }
}

/// Whether what runs is what the steps so far have started.
pub open spec fn started_by(running: Running, steps: Seq<Step>) -> bool {
    forall|t: Task| #[trigger] running.has(t) == steps.contains(Step::Start(t))
}

impl MainView {
    /// Whether the main loop is as it can be: it is at one of its steps, and what runs is what was started.
    pub open spec fn wf(self) -> bool {
        match self.phase {
            PhaseView::Starting(i) => 0 <= i < self.steps.len() && started_by(self.running, self.steps.take(i)),
            PhaseView::Serving => started_by(self.running, self.steps),
            _ => true,
        }
    }
}

impl MainLoop {
    /// Whether the main loop is as it can be.
    pub open spec fn wf(self) -> bool {
        &&& self@.wf()
        &&& self.phase matches Phase::Stopping { result, stops, next } ==> next <= stops@.len()
    }
}

/// The main loop that stops services, and its command.
pub open spec fn stopping(m: MainView, result: RunResult, stops: Seq<StopStep>) -> (MainView, Command) {
    if stops.len() == 0 {
        (MainView { phase: PhaseView::Ended(result), ..m }, Command::Exit(result))
    } else {
        (MainView { phase: PhaseView::Stopping { result, left: stops.skip(1) }, ..m }, Command::Stop(stops[0]))
    }
}

/// What runs after a step.
pub open spec fn running_after(before: Running, step: Step, after: Running) -> bool {
    match step {
        Step::Start(t) => forall|u: Task| #[trigger] after.has(u) == (u == t || before.has(u)),
        _ => after == before,
    }
}

/// Whether the main loop comes from `m` to `n` on an event, with this command.
///
/// Startup goes on step by step. A step that fails stops what it must, and the daemon ends with an error. After
/// the last step signals are waited for: one that ends the daemon stops every service first.
pub open spec fn advances(m: MainView, event: MainEvent, n: MainView, command: Command) -> bool {
    match m.phase {
        PhaseView::Starting(i) => match event {
            MainEvent::Done => {
                &&& n.steps == m.steps
                &&& running_after(m.running, m.steps[i], n.running)
                &&& if i + 1 < m.steps.len() {
                    n.phase == PhaseView::Starting(i + 1) && command == Command::Do(m.steps[i + 1])
                } else {
                    n.phase == PhaseView::Serving && command == Command::Await
                }
            },
            MainEvent::Failed => (n, command) == stopping(m, RunResult::IoError, stops_after(m.steps[i], m.running)),
            MainEvent::Signal(_) => n == m && command == Command::Do(m.steps[i]),
        },
        PhaseView::Serving => match event {
            MainEvent::Signal(Caught::Hangup) => n == m && command == Command::Reload,
            MainEvent::Signal(_) => (n, command) == stopping(m, RunResult::Clean, stops_at_end(m.running)),
            _ => n == m && command == Command::Await,
        },
        PhaseView::Stopping { result, left } => (n, command) == stopping(m, result, left),
        PhaseView::Ended(result) => n == m && command == Command::Exit(result),
    }
}

/// What started so far, with one step more.
proof fn lemma_started_step(before: Running, after: Running, steps: Seq<Step>, i: int)
    requires
        0 <= i < steps.len(),
        started_by(before, steps.take(i)),
        running_after(before, steps[i], after),
    ensures
        started_by(after, steps.take(i + 1)),
{
    let a = steps.take(i);
    let b = steps.take(i + 1);
    assert(b =~= a.push(steps[i]));
    assert forall|t: Task| #[trigger] after.has(t) == b.contains(Step::Start(t)) by {
        assert(before.has(t) == a.contains(Step::Start(t)));
        if b.contains(Step::Start(t)) {
            let k = choose|k: int| 0 <= k < b.len() && b[k] == Step::Start(t);
            if k < i {
                assert(a[k] == Step::Start(t));
            }
        }
        if a.contains(Step::Start(t)) {
            let k = choose|k: int| 0 <= k < a.len() && a[k] == Step::Start(t);
            assert(b[k] == Step::Start(t));
        }
        if steps[i] == Step::Start(t) {
            assert(b[i] == Step::Start(t));
        }
    }
}

impl MainLoop {
    /// The main loop before its first step, and the command for that.
    pub fn begin(plan: &Plan) -> (r: (Self, Command))
        ensures
            r.0.wf(),
            r.0@.steps == steps_of(*plan),
            r.0@.phase == PhaseView::Starting(0),
            r.1 == Command::Do(steps_of(*plan)[0]),
    {
        let steps: Vec<Step> = startup_steps(plan);
        proof {
            lemma_some_step(*plan);
            assert(steps@.take(0) =~= seq![]);
        }
        let first: Step = steps[0];
        (MainLoop { steps, phase: Phase::Starting(0), running: Running::none() }, Command::Do(first))
    }

    /// Goes on to stop services.
    fn stop(&mut self, result: RunResult, stops: Vec<StopStep>, next: usize) -> (command: Command)
        requires
            next <= stops@.len(),
        ensures
            final(self).wf(),
            (final(self)@, command) == stopping(old(self)@, result, stops@.skip(next as int)),
    {
        if next == stops.len() {
            self.phase = Phase::Ended(result);
            assert(self@ =~= (MainView { phase: PhaseView::Ended(result), ..old(self)@ }));
            Command::Exit(result)
        } else {
            let stop: StopStep = stops[next];
            proof {
                assert(stops@.skip(next as int).skip(1) =~= stops@.skip(next + 1));
            }
            self.phase = Phase::Stopping { result, stops, next: next + 1 };
            Command::Stop(stop)
        }
    }

    /// What follows on an event.
    pub fn advance(&mut self, event: MainEvent) -> (command: Command)
        requires
            old(self).wf(),
        ensures
            final(self).wf(),
            advances(old(self)@, event, final(self)@, command),
    {
        let mut phase: Phase = Phase::Serving;
        std::mem::swap(&mut phase, &mut self.phase);
        match phase {
            Phase::Starting(i) => match event {
                MainEvent::Done => {
                    let step: Step = self.steps[i];
                    let ghost r = self.running;
                    if let Step::Start(t) = step {
                        self.running.start(t);
                    }
                    proof {
                        lemma_started_step(r, self.running, self.steps@, i as int);
                    }
                    let count: usize = self.steps.len();
                    assert(i < count);
                    if i + 1 < count {
                        self.phase = Phase::Starting(i + 1);
                        Command::Do(self.steps[i + 1])
                    } else {
                        self.phase = Phase::Serving;
                        assert(self.steps@.take(i + 1) =~= self.steps@);
                        Command::Await
                    }
                },
                MainEvent::Failed => {
                    let stops: Vec<StopStep> = stop_after_failure(self.steps[i], &self.running);
                    assert(stops@.skip(0) =~= stops@);
                    self.stop(RunResult::IoError, stops, 0)
                },
                MainEvent::Signal(_) => {
                    self.phase = Phase::Starting(i);
                    Command::Do(self.steps[i])
                },
            },
            Phase::Serving => match event {
                MainEvent::Signal(s) => match on_signal(s) {
                    Some(result) => {
                        let stops: Vec<StopStep> = stop_at_end(&self.running);
                        assert(stops@.skip(0) =~= stops@);
                        self.stop(result, stops, 0)
                    },
                    None => Command::Reload,
                },
                _ => Command::Await,
            },
            Phase::Stopping { result, stops, next } => self.stop(result, stops, next),
            Phase::Ended(result) => {
                self.phase = Phase::Ended(result);
                Command::Exit(result)
            },
        }
    }
}

/// There is a first step.
proof fn lemma_some_step(p: Plan)
    ensures
        steps_of(p).len() > 0,
{
    crate::dnsmasq::services::law_planned_services_start(p, Task::Forward);
    assert(planned(p, Task::Forward));
}

/// Whether from a state on, whatever the events are, exactly these services are stopped, in this order, before the
/// daemon ends with this result.
pub open spec fn stops_and_ends(m: MainView, command: Command, stops: Seq<StopStep>, result: RunResult) -> bool
    decreases stops.len(),
{
    if stops.len() == 0 {
        command == Command::Exit(result)
    } else {
        command == Command::Stop(stops[0]) && forall|e: MainEvent, n: MainView, c: Command| #[trigger]
            advances(m, e, n, c) ==> stops_and_ends(n, c, stops.skip(1), result)
    }
}

/// Stopping stops all that is left and ends.
proof fn lemma_stops_and_ends(m: MainView, result: RunResult, stops: Seq<StopStep>)
    ensures
        stops_and_ends(stopping(m, result, stops).0, stopping(m, result, stops).1, stops, result),
    decreases stops.len(),
{
    if stops.len() > 0 {
        let n = stopping(m, result, stops).0;
        assert forall|e: MainEvent, k: MainView, c: Command| #[trigger] advances(n, e, k, c) implies stops_and_ends(
            k,
            c,
            stops.skip(1),
            result,
        ) by {
            lemma_stops_and_ends(n, result, stops.skip(1));
        }
    }
}

/// Where a step of startup fails, the services that it must stop are stopped, in order, and the daemon ends with an
/// error.
pub proof fn law_failure_ends(m: MainView, i: int, n: MainView, command: Command)
    requires
        m.phase == PhaseView::Starting(i),
        advances(m, MainEvent::Failed, n, command),
    ensures
        stops_and_ends(n, command, stops_after(m.steps[i], m.running), RunResult::IoError),
{
    lemma_stops_and_ends(m, RunResult::IoError, stops_after(m.steps[i], m.running));
}

/// Where a signal ends the daemon, every service is stopped as it must be, in order, and the daemon ends well.
pub proof fn law_signal_ends(m: MainView, signal: Caught, n: MainView, command: Command)
    requires
        m.phase is Serving,
        !(signal is Hangup),
        advances(m, MainEvent::Signal(signal), n, command),
    ensures
        stops_and_ends(n, command, stops_at_end(m.running), RunResult::Clean),
{
    lemma_stops_and_ends(m, RunResult::Clean, stops_at_end(m.running));
}

/// While the daemon serves, the services that were planned run, and no others.
pub proof fn law_planned_services_run(p: Plan, m: MainView, t: Task)
    requires
        m.wf(),
        m.steps == steps_of(p),
        m.phase is Serving,
    ensures
        m.running.has(t) == planned(p, t),
{
    crate::dnsmasq::services::law_planned_services_start(p, t);
    assert(m.running.has(t) == m.steps.contains(Step::Start(t)));
}

} // verus!
