//! Running a core and keeping it on a proxy that answers.

use vstd::prelude::*;

verus! {

// ---------------------------------------------------------------------------
// Health checks
// ---------------------------------------------------------------------------

/// Where a health check stands: what is done next, or how it ended.
#[derive(Debug, Clone, Copy, PartialEq, Eq, Structural)]
pub enum CheckStep {
    /// Choose the fastest proxy and switch to it.
    Choose,
    /// Update the runtime configuration from the subscriptions.
    Update,
    /// Have the core load the runtime configuration.
    Reload,
    /// Choose once more.
    ChooseAgain,
    /// The first choice found a proxy.
    Reachable,
    /// A proxy was found after the update.
    Recovered,
    /// There was no proxy, and the update failed.
    UpdateFailed,
    /// There was no proxy after the update either.
    Unreachable,
}

/// How a health check goes on after a step that succeeded or failed. It does not matter
/// whether the core could load the configuration.
pub open spec fn after_check_step(step: CheckStep, succeeded: bool) -> CheckStep {
    match step {
        CheckStep::Choose => if succeeded {
            CheckStep::Reachable
        } else {
            CheckStep::Update
        },
        CheckStep::Update => if succeeded {
            CheckStep::Reload
        } else {
            CheckStep::UpdateFailed
        },
        CheckStep::Reload => CheckStep::ChooseAgain,
        CheckStep::ChooseAgain => if succeeded {
            CheckStep::Recovered
        } else {
            CheckStep::Unreachable
        },
        _ => step,
    }
}

impl CheckStep {
    /// Whether nothing is left to do.
    pub open spec fn ended(self) -> bool {
        match self {
            CheckStep::Reachable => true,
            CheckStep::Recovered => true,
            CheckStep::UpdateFailed => true,
            CheckStep::Unreachable => true,
            _ => false,
        }
    }

    /// The start of a check.
    pub fn first() -> (step: CheckStep)
        ensures
            step == CheckStep::Choose,
    {
        CheckStep::Choose
    }

    /// How the check goes on.
    pub fn next(self, succeeded: bool) -> (next: CheckStep)
        ensures
            next == after_check_step(self, succeeded),
    {
        match self {
            CheckStep::Choose => if succeeded {
                CheckStep::Reachable
            } else {
                CheckStep::Update
            },
            CheckStep::Update => if succeeded {
                CheckStep::Reload
            } else {
                CheckStep::UpdateFailed
            },
            CheckStep::Reload => CheckStep::ChooseAgain,
            CheckStep::ChooseAgain => if succeeded {
                CheckStep::Recovered
            } else {
                CheckStep::Unreachable
            },
            CheckStep::Reachable => CheckStep::Reachable,
            CheckStep::Recovered => CheckStep::Recovered,
            CheckStep::UpdateFailed => CheckStep::UpdateFailed,
            CheckStep::Unreachable => CheckStep::Unreachable,
        }
    }
}

/// The steps of a health check from the given one on, where each step that is taken
/// succeeds or fails as `outcome` says.
pub open spec fn check_trace(step: CheckStep, outcome: spec_fn(CheckStep) -> bool, fuel: nat) -> Seq<
    CheckStep,
>
    decreases fuel,
{
    if step.ended() || fuel == 0 {
        seq![step]
    } else {
        seq![step] + check_trace(
            after_check_step(step, outcome(step)),
            outcome,
            (fuel - 1) as nat,
        )
    }
}

/// A health check ends after four steps at most. Subscriptions are updated only where the
/// first choice fails, and then once; the core is asked to load the configuration only
/// after an update, and a proxy is chosen again only after that.
pub proof fn check_course(outcome: spec_fn(CheckStep) -> bool)
    ensures
        check_trace(CheckStep::Choose, outcome, 4) == if outcome(CheckStep::Choose) {
            seq![CheckStep::Choose, CheckStep::Reachable]
        } else if !outcome(CheckStep::Update) {
            seq![CheckStep::Choose, CheckStep::Update, CheckStep::UpdateFailed]
        } else {
            seq![
                CheckStep::Choose,
                CheckStep::Update,
                CheckStep::Reload,
                CheckStep::ChooseAgain,
                if outcome(CheckStep::ChooseAgain) {
                    CheckStep::Recovered
                } else {
                    CheckStep::Unreachable
                },
            ]
        },
{
    reveal_with_fuel(check_trace, 5);
}

// ---------------------------------------------------------------------------
// Waiting for the controller
// ---------------------------------------------------------------------------

/// How often the controller is asked before it is given up.
pub const PROBES: u32 = 40;

/// The pause after a question that was not answered, in milliseconds.
pub const PAUSE_MS: u64 = 500;

/// Where waiting for the controller stands.
#[derive(Debug, Clone, Copy, PartialEq, Eq, Structural)]
pub enum WaitStep {
    /// Ask the controller, for which so many questions are left.
    Probe(u32),
    /// Pause, with so many questions left.
    Pause(u32),
    /// The controller answered.
    Ready,
    /// The controller did not answer any question.
    GaveUp,
}

/// How waiting goes on after a question that was answered or not, or after a pause.
pub open spec fn after_wait_step(step: WaitStep, answered: bool) -> WaitStep {
    match step {
        WaitStep::Probe(left) => if answered {
            WaitStep::Ready
        } else if left <= 1 {
            WaitStep::Pause(0)
        } else {
            WaitStep::Pause((left - 1) as u32)
        },
        WaitStep::Pause(left) => if left == 0 {
            WaitStep::GaveUp
        } else {
            WaitStep::Probe(left)
        },
        _ => step,
    }
}

impl WaitStep {
    /// The start of waiting.
    pub fn first() -> (step: WaitStep)
        ensures
            step == WaitStep::Probe(PROBES),
    {
        WaitStep::Probe(PROBES)
    }

    /// How waiting goes on.
    pub fn next(self, answered: bool) -> (next: WaitStep)
        ensures
            next == after_wait_step(self, answered),
    {
        match self {
            WaitStep::Probe(left) => if answered {
                WaitStep::Ready
            } else if left <= 1 {
                WaitStep::Pause(0)
            } else {
                WaitStep::Pause(left - 1)
            },
            WaitStep::Pause(left) => if left == 0 {
                WaitStep::GaveUp
            } else {
                WaitStep::Probe(left)
            },
            WaitStep::Ready => WaitStep::Ready,
            WaitStep::GaveUp => WaitStep::GaveUp,
        }
    }
}

/// Waiting after the given answers, each but the last with the pause behind it.
pub open spec fn waited(step: WaitStep, answers: Seq<bool>) -> WaitStep
    decreases answers.len(),
{
    if answers.len() == 0 {
        step
    } else {
        after_wait_step(
            after_wait_step(waited(step, answers.drop_last()), answers.last()),
            true,
        )
    }
}

proof fn lemma_waited(left: u32, answers: Seq<bool>)
    requires
        0 < left,
        answers.len() <= left,
    ensures
        ({
            let step = waited(WaitStep::Probe(left), answers);
            if exists|i: int| 0 <= i < answers.len() && #[trigger] answers[i] {
                step == WaitStep::Ready
            } else if answers.len() < left {
                step == WaitStep::Probe((left - answers.len()) as u32)
            } else {
                step == WaitStep::GaveUp
            }
        }),
    decreases answers.len(),
{
    if answers.len() > 0 {
        let fewer = answers.drop_last();
        lemma_waited(left, fewer);
        if exists|i: int| 0 <= i < fewer.len() && #[trigger] fewer[i] {
            let i = choose|i: int| 0 <= i < fewer.len() && #[trigger] fewer[i];
            assert(answers[i]);
        } else {
            assert forall|i: int| 0 <= i < answers.len() - 1 implies !#[trigger] answers[i] by {
                assert(fewer[i] == answers[i]);
            }
        }
    }
}

/// The controller is ready as soon as it answers one of forty questions, and it is given
/// up when it answered none of them.
pub proof fn wait_course(answers: Seq<bool>)
    requires
        answers.len() <= PROBES,
    ensures
        waited(WaitStep::Probe(PROBES), answers) == WaitStep::Ready <==> exists|i: int|
            0 <= i < answers.len() && #[trigger] answers[i],
        waited(WaitStep::Probe(PROBES), answers) == WaitStep::GaveUp <==> answers.len() == PROBES
            && forall|i: int| 0 <= i < answers.len() ==> !#[trigger] answers[i],
{
    lemma_waited(PROBES, answers);
}

/// The words in which it is reported that the controller was given up.
pub fn gave_up_message() -> (message: String)
    ensures
        message@ == "mihomo external-controller did not become ready"@,
{
    "mihomo external-controller did not become ready".to_string()
}

// ---------------------------------------------------------------------------
// Running
// ---------------------------------------------------------------------------

/// What a run does besides its checks.
#[derive(Debug, Clone, Copy, PartialEq, Eq, Structural)]
pub struct RunPlan {
    /// Update the runtime configuration first.
    pub refresh: bool,
    /// Start a core.
    pub start_core: bool,
}

impl RunPlan {
    /// The plan of a run: the runtime configuration of an earlier run is used, unless there
    /// is none or the command line changed something.
    pub fn new(no_core: bool, changed: bool, cached: bool) -> (plan: RunPlan)
        ensures
            plan.refresh == (changed || !cached),
            plan.start_core == !no_core,
    {
        RunPlan { refresh: changed || !cached, start_core: !no_core }
    }
}

/// Where a run stands: what is done next, or how it ended.
#[derive(Debug, Clone, Copy, PartialEq, Eq, Structural)]
pub enum RunStep {
    /// Update the runtime configuration.
    Refresh,
    /// See whether a core may be started.
    Guard,
    /// Start the core.
    Start,
    /// Wait for the controller.
    Wait,
    /// Check for the first time.
    FirstCheck,
    /// Wait for the next check or for an interruption.
    Idle,
    /// Check again.
    Check,
    /// See whether the core still runs.
    Poll,
    /// Stop the core.
    Kill,
    /// The run was interrupted.
    Ended,
    /// The run failed.
    Failed,
}

/// What became of a step.
#[derive(Debug, Clone, Copy, PartialEq, Eq, Structural)]
pub enum RunEvent {
    /// It succeeded: the time is over, the core still runs.
    Succeeded,
    /// It failed: there was an error, the core has stopped.
    Failed,
    /// The run was interrupted.
    Interrupted,
}

/// What follows when the runtime configuration is there.
pub open spec fn after_refresh(plan: RunPlan) -> RunStep {
    if plan.start_core {
        RunStep::Guard
    } else {
        RunStep::Wait
    }
}

/// The first step of a run.
pub open spec fn first_run_step(plan: RunPlan) -> RunStep {
    if plan.refresh {
        RunStep::Refresh
    } else {
        after_refresh(plan)
    }
}

/// How a run goes on. Before the first pause every failure ends it; later a failed check
/// does not, and the end of the core does. Only a pause can be interrupted.
pub open spec fn after_run_step(plan: RunPlan, step: RunStep, event: RunEvent) -> RunStep {
    match (step, event) {
        (RunStep::Idle, RunEvent::Interrupted) => if plan.start_core {
            RunStep::Kill
        } else {
            RunStep::Ended
        },
        (RunStep::Idle, _) => RunStep::Check,
        (RunStep::Check, _) => if plan.start_core {
            RunStep::Poll
        } else {
            RunStep::Idle
        },
        (RunStep::Kill, _) => RunStep::Ended,
        (RunStep::Ended, _) => RunStep::Ended,
        (RunStep::Failed, _) => RunStep::Failed,
        (_, RunEvent::Failed) => RunStep::Failed,
        (RunStep::Refresh, _) => after_refresh(plan),
        (RunStep::Guard, _) => RunStep::Start,
        (RunStep::Start, _) => RunStep::Wait,
        (RunStep::Wait, _) => RunStep::FirstCheck,
        (RunStep::FirstCheck, _) => RunStep::Idle,
        (RunStep::Poll, _) => RunStep::Idle,
    }
}

impl RunStep {
    /// The first step of a run.
    pub fn first(plan: RunPlan) -> (step: RunStep)
        ensures
            step == first_run_step(plan),
    {
        if plan.refresh {
            RunStep::Refresh
        } else if plan.start_core {
            RunStep::Guard
        } else {
            RunStep::Wait
        }
    }

    /// How a run goes on.
    pub fn next(self, plan: RunPlan, event: RunEvent) -> (next: RunStep)
        ensures
            next == after_run_step(plan, self, event),
    {
        let failed: bool = event == RunEvent::Failed;
        match self {
            RunStep::Idle => if event == RunEvent::Interrupted {
                if plan.start_core {
                    RunStep::Kill
                } else {
                    RunStep::Ended
                }
            } else {
                RunStep::Check
            },
            RunStep::Check => if plan.start_core {
                RunStep::Poll
            } else {
                RunStep::Idle
            },
            RunStep::Kill => RunStep::Ended,
            RunStep::Ended => RunStep::Ended,
            RunStep::Failed => RunStep::Failed,
            RunStep::Refresh => if failed {
                RunStep::Failed
            } else if plan.start_core {
                RunStep::Guard
            } else {
                RunStep::Wait
            },
            RunStep::Guard => if failed {
                RunStep::Failed
            } else {
                RunStep::Start
            },
            RunStep::Start => if failed {
                RunStep::Failed
            } else {
                RunStep::Wait
            },
            RunStep::Wait => if failed {
                RunStep::Failed
            } else {
                RunStep::FirstCheck
            },
            RunStep::FirstCheck => if failed {
                RunStep::Failed
            } else {
                RunStep::Idle
            },
            RunStep::Poll => if failed {
                RunStep::Failed
            } else {
                RunStep::Idle
            },
        }
    }
}

/// A run after the given events.
pub open spec fn run_after(plan: RunPlan, events: Seq<RunEvent>) -> RunStep
    decreases events.len(),
{
    if events.len() == 0 {
        first_run_step(plan)
    } else {
        after_run_step(plan, run_after(plan, events.drop_last()), events.last())
    }
}

/// A run updates the runtime configuration only where its plan says so, and then before
/// anything else.
pub proof fn refresh_only_first(plan: RunPlan, events: Seq<RunEvent>)
    ensures
        run_after(plan, events) == RunStep::Refresh ==> plan.refresh && events.len() == 0,
    decreases events.len(),
{
    if events.len() > 0 {
        refresh_only_first(plan, events.drop_last());
    }
}

/// A run without a core of its own never looks for one, starts one or stops one.
pub proof fn no_core_untouched(plan: RunPlan, events: Seq<RunEvent>)
    requires
        !plan.start_core,
    ensures
        ({
            let step = run_after(plan, events);
            step != RunStep::Guard && step != RunStep::Start && step != RunStep::Poll && step
                != RunStep::Kill
        }),
    decreases events.len(),
{
    if events.len() > 0 {
        no_core_untouched(plan, events.drop_last());
    }
}

/// The core is started at most once in a run, and right after it was seen that it may be.
pub proof fn core_started_once(plan: RunPlan, events: Seq<RunEvent>, a: int, b: int)
    requires
        0 <= a < b <= events.len(),
        run_after(plan, events.take(a)) == RunStep::Start,
    ensures
        run_after(plan, events.take(b)) != RunStep::Start,
        a > 0,
        run_after(plan, events.take(a - 1)) == RunStep::Guard,
        events[a - 1] != RunEvent::Failed,
{
    assert(events.take(a).len() == a);
    if a > 0 {
        assert(events.take(a).drop_last() =~= events.take(a - 1));
        assert(events.take(a).last() == events[a - 1]);
    }
    lemma_start_left_behind(plan, events, a, b);
}

proof fn lemma_start_left_behind(plan: RunPlan, events: Seq<RunEvent>, a: int, b: int)
    requires
        0 <= a < b <= events.len(),
        run_after(plan, events.take(a)) == RunStep::Start,
    ensures
        ({
            let step = run_after(plan, events.take(b));
            step != RunStep::Start && step != RunStep::Guard && step != RunStep::Refresh
        }),
    decreases b,
{
    assert(events.take(b).drop_last() =~= events.take(b - 1));
    if b - 1 > a {
        lemma_start_left_behind(plan, events, a, b - 1);
    }
}

/// A run whose first check succeeded fails only when the core stopped.
pub proof fn checks_do_not_end_a_run(plan: RunPlan, events: Seq<RunEvent>)
    requires
        events.len() > 0,
        run_after(plan, events) == RunStep::Failed,
    ensures
        ({
            let before = run_after(plan, events.drop_last());
            before != RunStep::Idle && before != RunStep::Check && before != RunStep::Kill && (
            before == RunStep::Failed || events.last() == RunEvent::Failed)
        }),
{
}

/// The least number of seconds between two checks.
pub const LEAST_PAUSE_SECS: u64 = 5;

/// The seconds between two checks.
pub fn check_pause_secs(health_check_secs: u64) -> (secs: u64)
    ensures
        secs == if health_check_secs < LEAST_PAUSE_SECS {
            LEAST_PAUSE_SECS
        } else {
            health_check_secs
        },
        secs >= 5,
        secs >= health_check_secs,
        secs == 5 || secs == health_check_secs,
{
    if health_check_secs < LEAST_PAUSE_SECS {
        LEAST_PAUSE_SECS
    } else {
        health_check_secs
    }
}

/// The words in which it is reported that the core stopped.
pub fn exit_message(status: &str) -> (message: String)
    ensures
        message@ == "mihomo exited: "@ + status@,
{
    let mut message: String = "mihomo exited: ".to_string();
    message.append(status);
    message
}

/// A health check that ended stays as it ended, and no other step stands still.
pub proof fn ended_checks_stay(step: CheckStep, succeeded: bool)
    ensures
        step.ended() <==> after_check_step(step, succeeded) == step,
        step.ended() <==> step == CheckStep::Reachable || step == CheckStep::Recovered || step
            == CheckStep::UpdateFailed || step == CheckStep::Unreachable,
{
}

/// Choosing and updating decide by whether they succeed how a check goes on; loading the
/// configuration does not.
pub proof fn check_moves(succeeded: bool)
    ensures
        after_check_step(CheckStep::Choose, succeeded) == CheckStep::Reachable <==> succeeded,
        after_check_step(CheckStep::Choose, succeeded) == CheckStep::Update <==> !succeeded,
        after_check_step(CheckStep::Update, succeeded) == CheckStep::Reload <==> succeeded,
        after_check_step(CheckStep::Update, succeeded) == CheckStep::UpdateFailed <==> !succeeded,
        after_check_step(CheckStep::Reload, succeeded) == CheckStep::ChooseAgain,
        after_check_step(CheckStep::ChooseAgain, succeeded) == CheckStep::Recovered <==> succeeded,
        after_check_step(CheckStep::ChooseAgain, succeeded) == CheckStep::Unreachable
            <==> !succeeded,
{
}

/// The controller is asked at most forty times, with half a second after each question that
/// it did not answer, and an answer to any of them is enough.
pub proof fn forty_questions(answers: Seq<bool>)
    requires
        answers.len() <= 40,
    ensures
        PROBES == 40,
        PAUSE_MS == 500,
        ({
            let step = waited(WaitStep::Probe(PROBES), answers);
            &&& step == WaitStep::Ready <==> exists|i: int|
                0 <= i < answers.len() && #[trigger] answers[i]
            &&& step != WaitStep::Ready && answers.len() < 40 ==> step == WaitStep::Probe(
                (40 - answers.len()) as u32,
            )
            &&& step != WaitStep::Ready && answers.len() == 40 ==> step == WaitStep::GaveUp
        }),
{
    lemma_waited(PROBES, answers);
}

/// A question that was not answered is followed by a pause with one question less, and a
/// pause by the next question or, with none left, by giving up. Waiting that ended stays as
/// it ended.
pub proof fn pauses_follow_questions(left: u32, answered: bool)
    requires
        left > 0,
    ensures
        after_wait_step(WaitStep::Probe(left), true) == WaitStep::Ready,
        after_wait_step(WaitStep::Probe(left), false) == WaitStep::Pause((left - 1) as u32),
        after_wait_step(WaitStep::Pause(left), answered) == WaitStep::Probe(left),
        after_wait_step(WaitStep::Pause(0), answered) == WaitStep::GaveUp,
        after_wait_step(WaitStep::Ready, answered) == WaitStep::Ready,
        after_wait_step(WaitStep::GaveUp, answered) == WaitStep::GaveUp,
{
}

/// Until the first check is over, and whenever the core is looked at, a failure ends a run
/// and nothing else does: without one the configuration is followed by the core, where one
/// is to be started, then by the controller, the first check and the first pause.
pub proof fn run_starts_up(plan: RunPlan, event: RunEvent)
    ensures
        first_run_step(plan) == if plan.refresh {
            RunStep::Refresh
        } else if plan.start_core {
            RunStep::Guard
        } else {
            RunStep::Wait
        },
        event == RunEvent::Failed ==> {
            &&& after_run_step(plan, RunStep::Refresh, event) == RunStep::Failed
            &&& after_run_step(plan, RunStep::Guard, event) == RunStep::Failed
            &&& after_run_step(plan, RunStep::Start, event) == RunStep::Failed
            &&& after_run_step(plan, RunStep::Wait, event) == RunStep::Failed
            &&& after_run_step(plan, RunStep::FirstCheck, event) == RunStep::Failed
            &&& after_run_step(plan, RunStep::Poll, event) == RunStep::Failed
        },
        event != RunEvent::Failed ==> {
            &&& plan.start_core ==> after_run_step(plan, RunStep::Refresh, event) == RunStep::Guard
            &&& !plan.start_core ==> after_run_step(plan, RunStep::Refresh, event) == RunStep::Wait
            &&& after_run_step(plan, RunStep::Guard, event) == RunStep::Start
            &&& after_run_step(plan, RunStep::Start, event) == RunStep::Wait
            &&& after_run_step(plan, RunStep::Wait, event) == RunStep::FirstCheck
            &&& after_run_step(plan, RunStep::FirstCheck, event) == RunStep::Idle
            &&& after_run_step(plan, RunStep::Poll, event) == RunStep::Idle
        },
{
}

/// A pause that is interrupted ends the run, and first stops the core where the run started
/// one; a pause that is not interrupted is followed by a check. Whatever a check gives, the
/// run goes on. A run that ended or failed stays so.
pub proof fn run_keeps_going(plan: RunPlan, event: RunEvent)
    ensures
        ({
            let next = after_run_step(plan, RunStep::Idle, event);
            &&& next == RunStep::Kill <==> event == RunEvent::Interrupted && plan.start_core
            &&& next == RunStep::Ended <==> event == RunEvent::Interrupted && !plan.start_core
            &&& next == RunStep::Check <==> event != RunEvent::Interrupted
        }),
        plan.start_core ==> after_run_step(plan, RunStep::Check, event) == RunStep::Poll,
        !plan.start_core ==> after_run_step(plan, RunStep::Check, event) == RunStep::Idle,
        after_run_step(plan, RunStep::Kill, event) == RunStep::Ended,
        after_run_step(plan, RunStep::Ended, event) == RunStep::Ended,
        after_run_step(plan, RunStep::Failed, event) == RunStep::Failed,
{
}

/// A run starts a core unless it is told not to, and makes use of an earlier runtime
/// configuration only where there is one and nothing changed.
pub proof fn plans_follow_the_command_line(
    no_core: bool,
    changed: bool,
    cached: bool,
    plan: RunPlan,
)
    requires
        call_ensures(RunPlan::new, (no_core, changed, cached), plan),
    ensures
        plan.start_core <==> !no_core,
        !plan.refresh <==> cached && !changed,
{
}

} // verus!
