//! The decisions of the cleanup worker for one organization's batch of
//! pending tasks, as a state machine: the caller performs each action and
//! hands back what came of it as the next event.

use vstd::prelude::*;

use crate::org_cleanup::{CleanupTask, MAX_ATTEMPTS};
use crate::text::same_text;

verus! {

/// What a pending task must wait for, if anything, before it is attempted.
pub enum Readiness {
    /// A task of an earlier step is not done yet.
    WaitForPredecessors,
    /// The task failed too often; it is reported, not retried.
    PermanentlyFailed,
    /// The task may run now.
    Attempt,
}

/// Every task of an earlier step than `step_order` is done.
pub open spec fn predecessors_done(org_tasks: Seq<CleanupTask>, step_order: i32) -> bool {
    forall|i: int|
        0 <= i < org_tasks.len() && (#[trigger] org_tasks[i]).step_order < step_order
            ==> org_tasks[i].status@ == "done"@
}

/// The task failed and has used up its attempts.
pub open spec fn permanently_failed(task: CleanupTask) -> bool {
    task.status@ == "failed"@ && task.attempts >= MAX_ATTEMPTS
}

/// How ready `task` is to run, judged by the current tasks of its organization.
pub open spec fn readiness_of(task: CleanupTask, org_tasks: Seq<CleanupTask>) -> Readiness {
    if !predecessors_done(org_tasks, task.step_order) {
        Readiness::WaitForPredecessors
    } else if permanently_failed(task) {
        Readiness::PermanentlyFailed
    } else {
        Readiness::Attempt
    }
}

/// Whether every task of an earlier step than `step_order` is done.
pub fn predecessors_finished(org_tasks: &Vec<CleanupTask>, step_order: i32) -> (r: bool)
    ensures
        r == predecessors_done(org_tasks@, step_order),
{
    let n = org_tasks.len();
    let mut i: usize = 0;
    while i < n
        invariant
            n == org_tasks@.len(),
            0 <= i <= n,
            forall|j: int|
                0 <= j < i && (#[trigger] org_tasks@[j]).step_order < step_order
                    ==> org_tasks@[j].status@ == "done"@,
        decreases n - i,
    {
        let t = &org_tasks[i];
        if t.step_order < step_order && !same_text(t.status.as_str(), "done") {
            return false;
        }
        i = i + 1;
    }
    true
}

/// Whether the task failed and has used up its attempts.
pub fn is_permanently_failed(task: &CleanupTask) -> (r: bool)
    ensures
        r == permanently_failed(*task),
{
    same_text(task.status.as_str(), "failed") && task.attempts >= MAX_ATTEMPTS
}

/// How ready `task` is to run, judged by the current tasks of its organization.
pub fn task_readiness(task: &CleanupTask, org_tasks: &Vec<CleanupTask>) -> (r: Readiness)
    ensures
        r == readiness_of(*task, org_tasks@),
{
    if !predecessors_finished(org_tasks, task.step_order) {
        Readiness::WaitForPredecessors
    } else if is_permanently_failed(task) {
        Readiness::PermanentlyFailed
    } else {
        Readiness::Attempt
    }
}

/// Where the run over a batch stands.
pub enum RunPhase {
    /// Waiting for the current task's organization to be listed.
    Listing,
    /// Waiting for the report of a permanently failed task to be sent.
    Alerting,
    /// Waiting to learn whether the current task was claimed for running.
    Claiming,
    /// Waiting for the current task's step to finish.
    Executing,
    /// Waiting for the outcome of the step to be recorded.
    Recording,
    /// Nothing more to do.
    Finished,
}

/// What came of the last action.
pub enum CleanupEvent {
    /// All tasks of the organization, as stored now.
    Listed(Vec<CleanupTask>),
    /// The organization's tasks could not be listed.
    ListFailed,
    AlertSent,
    /// The task was marked running by this worker.
    Claimed,
    /// Another worker holds the task, or marking it failed.
    NotClaimed,
    StepSucceeded,
    /// The step failed with this message.
    StepFailed(String),
    Recorded,
}

/// What the worker must do next.
pub enum CleanupAction {
    ListOrgTasks { org_id: String },
    AlertPermanentFailure { org_id: String, step: String },
    MarkRunning { id: String },
    ExecuteStep { org_id: String, org_name: String, step: String },
    MarkDone { id: String },
    MarkFailed { id: String, error: String },
    Finish,
}

/// A run over one organization's batch of tasks, taken in order.
pub struct OrgCleanupRun {
    pub tasks: Vec<CleanupTask>,
    pub pos: usize,
    pub phase: RunPhase,
}

/// The state and action with which the task at `pos` is taken up; when there
/// is none left, the run finishes.
pub open spec fn take_up(tasks: Seq<CleanupTask>, pos: int) -> (int, RunPhase, CleanupAction) {
    if pos < tasks.len() {
        (pos, RunPhase::Listing, CleanupAction::ListOrgTasks { org_id: tasks[pos].org_id })
    } else {
        (pos, RunPhase::Finished, CleanupAction::Finish)
    }
}

/// The events that each phase waits for.
pub open spec fn phase_accepts(phase: RunPhase, event: CleanupEvent) -> bool {
    match phase {
        RunPhase::Listing => event is Listed || event is ListFailed,
        RunPhase::Alerting => event is AlertSent,
        RunPhase::Claiming => event is Claimed || event is NotClaimed,
        RunPhase::Executing => event is StepSucceeded || event is StepFailed,
        RunPhase::Recording => event is Recorded,
        RunPhase::Finished => false,
    }
}

/// The next position, phase and action after `event`, for the task at `pos`.
pub open spec fn transition(tasks: Seq<CleanupTask>, pos: int, phase: RunPhase, event: CleanupEvent) -> (
    int,
    RunPhase,
    CleanupAction,
) {
    let task = tasks[pos];
    match (phase, event) {
        (RunPhase::Listing, CleanupEvent::Listed(all)) => match readiness_of(task, all@) {
            Readiness::WaitForPredecessors => take_up(tasks, pos + 1),
            Readiness::PermanentlyFailed => (
                pos,
                RunPhase::Alerting,
                CleanupAction::AlertPermanentFailure { org_id: task.org_id, step: task.step },
            ),
            Readiness::Attempt => (pos, RunPhase::Claiming, CleanupAction::MarkRunning { id: task.id }),
        },
        (RunPhase::Listing, CleanupEvent::ListFailed) => (pos, RunPhase::Finished, CleanupAction::Finish),
        (RunPhase::Alerting, CleanupEvent::AlertSent) => take_up(tasks, pos + 1),
        (RunPhase::Claiming, CleanupEvent::Claimed) => (
            pos,
            RunPhase::Executing,
            CleanupAction::ExecuteStep { org_id: task.org_id, org_name: task.org_name, step: task.step },
        ),
        (RunPhase::Claiming, CleanupEvent::NotClaimed) => take_up(tasks, pos + 1),
        (RunPhase::Executing, CleanupEvent::StepSucceeded) => (
            pos,
            RunPhase::Recording,
            CleanupAction::MarkDone { id: task.id },
        ),
        (RunPhase::Executing, CleanupEvent::StepFailed(error)) => (
            pos,
            RunPhase::Recording,
            CleanupAction::MarkFailed { id: task.id, error },
        ),
        (RunPhase::Recording, CleanupEvent::Recorded) => take_up(tasks, pos + 1),
        _ => (pos, phase, CleanupAction::Finish),
    }
}

impl OrgCleanupRun {
    /// The run points at a task unless it has finished.
    pub open spec fn wf(&self) -> bool {
        !(self.phase is Finished) ==> self.pos < self.tasks@.len()
    }

    /// Starts a run over `tasks`, which come in step order.
    pub fn new(tasks: Vec<CleanupTask>) -> (r: (Self, CleanupAction))
        ensures
            r.0.wf(),
            r.0.tasks@ == tasks@,
            (r.0.pos as int, r.0.phase, r.1) == take_up(tasks@, 0),
    {
        let mut run = OrgCleanupRun { tasks, pos: 0, phase: RunPhase::Finished };
        let action = run.take_up_at(0);
        (run, action)
    }

    fn take_up_at(&mut self, pos: usize) -> (action: CleanupAction)
        requires
            pos <= old(self).tasks@.len(),
        ensures
            final(self).wf(),
            final(self).tasks@ == old(self).tasks@,
            (final(self).pos as int, final(self).phase, action) == take_up(old(self).tasks@, pos as int),
    {
        self.pos = pos;
        if pos < self.tasks.len() {
            self.phase = RunPhase::Listing;
            CleanupAction::ListOrgTasks { org_id: self.tasks[pos].org_id.clone() }
        } else {
            self.phase = RunPhase::Finished;
            CleanupAction::Finish
        }
    }

    /// Whether the run waits for `event` now.
    pub fn accepts(&self, event: &CleanupEvent) -> (r: bool)
        ensures
            r == phase_accepts(self.phase, *event),
    {
        match self.phase {
            RunPhase::Listing => matches!(event, CleanupEvent::Listed(_) | CleanupEvent::ListFailed),
            RunPhase::Alerting => matches!(event, CleanupEvent::AlertSent),
            RunPhase::Claiming => matches!(event, CleanupEvent::Claimed | CleanupEvent::NotClaimed),
            RunPhase::Executing => matches!(event, CleanupEvent::StepSucceeded | CleanupEvent::StepFailed(_)),
            RunPhase::Recording => matches!(event, CleanupEvent::Recorded),
            RunPhase::Finished => false,
        }
    }

    /// Takes in what came of the last action and returns the next one.
    pub fn step(&mut self, event: CleanupEvent) -> (action: CleanupAction)
        requires
            old(self).wf(),
            phase_accepts(old(self).phase, event),
        ensures
            final(self).wf(),
            final(self).tasks@ == old(self).tasks@,
            (final(self).pos as int, final(self).phase, action) == transition(
                old(self).tasks@,
                old(self).pos as int,
                old(self).phase,
                event,
            ),
    {
        let pos = self.pos;
        let n = self.tasks.len();
        assert(pos < n);
        match event {
            CleanupEvent::Listed(all) => {
                let task = &self.tasks[pos];
                match task_readiness(task, &all) {
                    Readiness::WaitForPredecessors => self.take_up_at(pos + 1),
                    Readiness::PermanentlyFailed => {
                        let action = CleanupAction::AlertPermanentFailure {
                            org_id: task.org_id.clone(),
                            step: task.step.clone(),
                        };
                        self.phase = RunPhase::Alerting;
                        action
                    },
                    Readiness::Attempt => {
                        let action = CleanupAction::MarkRunning { id: task.id.clone() };
                        self.phase = RunPhase::Claiming;
                        action
                    },
                }
            },
            CleanupEvent::ListFailed => {
                self.phase = RunPhase::Finished;
                CleanupAction::Finish
            },
            CleanupEvent::AlertSent => self.take_up_at(pos + 1),
            CleanupEvent::Claimed => {
                let task = &self.tasks[pos];
                let action = CleanupAction::ExecuteStep {
                    org_id: task.org_id.clone(),
                    org_name: task.org_name.clone(),
                    step: task.step.clone(),
                };
                self.phase = RunPhase::Executing;
                action
            },
            CleanupEvent::NotClaimed => self.take_up_at(pos + 1),
            CleanupEvent::StepSucceeded => {
                let action = CleanupAction::MarkDone { id: self.tasks[pos].id.clone() };
                self.phase = RunPhase::Recording;
                action
            },
            CleanupEvent::StepFailed(error) => {
                let action = CleanupAction::MarkFailed { id: self.tasks[pos].id.clone(), error };
                self.phase = RunPhase::Recording;
                action
            },
            CleanupEvent::Recorded => self.take_up_at(pos + 1),
        }
    }
}

/// How much a run has left to do: five units per task not yet taken up,
/// and fewer for the current task the further its phase.
pub open spec fn work_left(task_count: int, pos: int, phase: RunPhase) -> int {
    match phase {
        RunPhase::Listing => (task_count - pos) * 5,
        RunPhase::Alerting => (task_count - pos) * 5 - 1,
        RunPhase::Claiming => (task_count - pos) * 5 - 1,
        RunPhase::Executing => (task_count - pos) * 5 - 2,
        RunPhase::Recording => (task_count - pos) * 5 - 3,
        RunPhase::Finished => 0,
    }
}

/// Every event that a run waits for brings it closer to its end, and keeps
/// it pointing at a task until it finishes: every run finishes.
pub proof fn lemma_run_progresses(tasks: Seq<CleanupTask>, pos: int, phase: RunPhase, event: CleanupEvent)
    requires
        0 <= pos,
        !(phase is Finished) ==> pos < tasks.len(),
        phase_accepts(phase, event),
    ensures
        ({
            let (next_pos, next_phase, _) = transition(tasks, pos, phase, event);
            &&& pos <= next_pos
            &&& !(next_phase is Finished) ==> next_pos < tasks.len()
            &&& 0 <= work_left(tasks.len() as int, next_pos, next_phase)
            &&& work_left(tasks.len() as int, next_pos, next_phase) < work_left(
                tasks.len() as int,
                pos,
                phase,
            )
        }),
{
}

/// A task is claimed for running only when the listing of its organization
/// shows every task of an earlier step done and the task has attempts left;
/// the claim names that task.
pub proof fn lemma_claim_only_when_ready(
    tasks: Seq<CleanupTask>,
    pos: int,
    phase: RunPhase,
    event: CleanupEvent,
)
    requires
        0 <= pos < tasks.len(),
        phase_accepts(phase, event),
    ensures
        ({
            let (_, next_phase, action) = transition(tasks, pos, phase, event);
            (next_phase is Claiming || action is MarkRunning) ==> {
                &&& phase is Listing
                &&& event matches CleanupEvent::Listed(all) && predecessors_done(
                    all@,
                    tasks[pos].step_order,
                ) && !permanently_failed(tasks[pos])
                &&& action == CleanupAction::MarkRunning { id: tasks[pos].id }
            }
        }),
{
}

/// A step is executed, and its outcome recorded, only once its task has been
/// claimed; a permanently failed task is reported instead of run.
pub proof fn lemma_execution_follows_claim(
    tasks: Seq<CleanupTask>,
    pos: int,
    phase: RunPhase,
    event: CleanupEvent,
)
    requires
        0 <= pos < tasks.len(),
        phase_accepts(phase, event),
    ensures
        ({
            let (_, next_phase, action) = transition(tasks, pos, phase, event);
            &&& (next_phase is Executing || action is ExecuteStep) ==> phase is Claiming && event is Claimed
            &&& (next_phase is Recording) ==> phase is Executing
            &&& action is AlertPermanentFailure ==> permanently_failed(tasks[pos])
        }),
{
}

/// With no tasks listed, nothing precedes a task; appending a task to the
/// listing keeps the predecessors done exactly when they were and the new
/// task, if it belongs to an earlier step, has status "done".
pub proof fn lemma_predecessors_done_push(org_tasks: Seq<CleanupTask>, t: CleanupTask, step_order: i32)
    ensures
        predecessors_done(Seq::<CleanupTask>::empty(), step_order),
        predecessors_done(org_tasks.push(t), step_order) == (predecessors_done(org_tasks, step_order)
            && (t.step_order < step_order ==> t.status@ == "done"@)),
{
    let s = org_tasks.push(t);
    if predecessors_done(s, step_order) {
        assert forall|i: int|
            0 <= i < org_tasks.len() && (#[trigger] org_tasks[i]).step_order < step_order
                implies org_tasks[i].status@ == "done"@ by {
            assert(s[i] == org_tasks[i]);
        }
        assert(s[org_tasks.len() as int] == t);
    }
    if predecessors_done(org_tasks, step_order) && (t.step_order < step_order ==> t.status@ == "done"@) {
        assert forall|i: int| 0 <= i < s.len() && (#[trigger] s[i]).step_order < step_order implies s[i].status@
            == "done"@ by {
            if i < org_tasks.len() {
                assert(s[i] == org_tasks[i]);
            }
        }
    }
}

/// A task of an earlier step whose status is anything but "done" (a
/// failed one included) holds a task back: it waits for its predecessors.
pub proof fn lemma_unfinished_predecessor_blocks(task: CleanupTask, org_tasks: Seq<CleanupTask>, i: int)
    requires
        0 <= i < org_tasks.len(),
        org_tasks[i].step_order < task.step_order,
        org_tasks[i].status@ != "done"@,
    ensures
        !predecessors_done(org_tasks, task.step_order),
        readiness_of(task, org_tasks) is WaitForPredecessors,
{
}

/// A task is attempted exactly when every listed task of an earlier step is
/// done and the task has not failed with its attempts used up; it is
/// reported as permanently failed exactly when its predecessors are done and
/// it has.
pub proof fn lemma_attempt_exactly_when_ready(task: CleanupTask, org_tasks: Seq<CleanupTask>)
    ensures
        readiness_of(task, org_tasks) is Attempt <==> (forall|i: int|
            0 <= i < org_tasks.len() && (#[trigger] org_tasks[i]).step_order < task.step_order
                ==> org_tasks[i].status@ == "done"@) && !(task.status@ == "failed"@ && task.attempts
            >= MAX_ATTEMPTS),
        readiness_of(task, org_tasks) is PermanentlyFailed <==> (forall|i: int|
            0 <= i < org_tasks.len() && (#[trigger] org_tasks[i]).step_order < task.step_order
                ==> org_tasks[i].status@ == "done"@) && task.status@ == "failed"@ && task.attempts
            >= MAX_ATTEMPTS,
{
}

/// Once the current task is behind the run (another worker holds its claim,
/// its permanent failure was reported, or its outcome was recorded), the run
/// takes up the next task of the batch by listing that task's organization,
/// and finishes after the last task.
pub proof fn lemma_moves_on_after_task(tasks: Seq<CleanupTask>, pos: int, phase: RunPhase, event: CleanupEvent)
    requires
        0 <= pos < tasks.len(),
        (phase is Claiming && event is NotClaimed) || (phase is Alerting && event is AlertSent) || (
        phase is Recording && event is Recorded),
    ensures
        pos + 1 < tasks.len() ==> transition(tasks, pos, phase, event) == (
            pos + 1,
            RunPhase::Listing,
            CleanupAction::ListOrgTasks { org_id: tasks[pos + 1].org_id },
        ),
        pos + 1 == tasks.len() ==> transition(tasks, pos, phase, event) == (
            pos + 1,
            RunPhase::Finished,
            CleanupAction::Finish,
        ),
{
}

/// A task that must wait for an unfinished task of an earlier step is
/// passed over: the run takes up the next task of the batch, or finishes
/// after the last one.
pub proof fn lemma_waiting_task_is_passed_over(tasks: Seq<CleanupTask>, pos: int, all: Vec<CleanupTask>, i: int)
    requires
        0 <= pos < tasks.len(),
        0 <= i < all@.len(),
        all@[i].step_order < tasks[pos].step_order,
        all@[i].status@ != "done"@,
    ensures
        pos + 1 < tasks.len() ==> transition(tasks, pos, RunPhase::Listing, CleanupEvent::Listed(all)) == (
            pos + 1,
            RunPhase::Listing,
            CleanupAction::ListOrgTasks { org_id: tasks[pos + 1].org_id },
        ),
        pos + 1 == tasks.len() ==> transition(tasks, pos, RunPhase::Listing, CleanupEvent::Listed(all)) == (
            pos + 1,
            RunPhase::Finished,
            CleanupAction::Finish,
        ),
{
    lemma_unfinished_predecessor_blocks(tasks[pos], all@, i);
}

/// A run starts with the first task of its batch, listing that task's
/// organization; an empty batch finishes at once.
pub proof fn lemma_run_starts_at_first_task(tasks: Seq<CleanupTask>)
    ensures
        tasks.len() > 0 ==> take_up(tasks, 0) == (
            0int,
            RunPhase::Listing,
            CleanupAction::ListOrgTasks { org_id: tasks[0].org_id },
        ),
        tasks.len() == 0 ==> take_up(tasks, 0) == (0int, RunPhase::Finished, CleanupAction::Finish),
{
}

/// What each phase of a run waits for: the listing or its failure, the
/// report's delivery, the claim's outcome, the step's outcome, the record
/// of that outcome; a finished run waits for nothing.
pub proof fn lemma_run_waits_for(phase: RunPhase, event: CleanupEvent)
    ensures
        phase is Listing ==> (phase_accepts(phase, event) <==> (event is Listed || event is ListFailed)),
        phase is Alerting ==> (phase_accepts(phase, event) <==> event is AlertSent),
        phase is Claiming ==> (phase_accepts(phase, event) <==> (event is Claimed || event is NotClaimed)),
        phase is Executing ==> (phase_accepts(phase, event) <==> (event is StepSucceeded
            || event is StepFailed)),
        phase is Recording ==> (phase_accepts(phase, event) <==> event is Recorded),
        phase is Finished ==> !phase_accepts(phase, event),
{
}

/// The course of one task: a listing that shows every earlier step done
/// leads to the claim of the task, or to the report of its permanent
/// failure; a failed listing ends the run; a won claim leads to the
/// execution of the task's step; its success is recorded as done and its
/// failure as failed with the step's message.
pub proof fn lemma_task_course(tasks: Seq<CleanupTask>, pos: int, event: CleanupEvent)
    requires
        0 <= pos < tasks.len(),
    ensures
        ({
            let task = tasks[pos];
            &&& event matches CleanupEvent::Listed(all) ==> ((forall|i: int|
                0 <= i < all@.len() && (#[trigger] all@[i]).step_order < task.step_order
                    ==> all@[i].status@ == "done"@) ==> if task.status@ == "failed"@ && task.attempts
                >= MAX_ATTEMPTS {
                transition(tasks, pos, RunPhase::Listing, event) == (
                    pos,
                    RunPhase::Alerting,
                    CleanupAction::AlertPermanentFailure { org_id: task.org_id, step: task.step },
                )
            } else {
                transition(tasks, pos, RunPhase::Listing, event) == (
                    pos,
                    RunPhase::Claiming,
                    CleanupAction::MarkRunning { id: task.id },
                )
            })
            &&& event is ListFailed ==> transition(tasks, pos, RunPhase::Listing, event) == (
                pos,
                RunPhase::Finished,
                CleanupAction::Finish,
            )
            &&& event is Claimed ==> transition(tasks, pos, RunPhase::Claiming, event) == (
                pos,
                RunPhase::Executing,
                CleanupAction::ExecuteStep {
                    org_id: task.org_id,
                    org_name: task.org_name,
                    step: task.step,
                },
            )
            &&& event is StepSucceeded ==> transition(tasks, pos, RunPhase::Executing, event) == (
                pos,
                RunPhase::Recording,
                CleanupAction::MarkDone { id: task.id },
            )
            &&& event matches CleanupEvent::StepFailed(e) ==> transition(
                tasks,
                pos,
                RunPhase::Executing,
                event,
            ) == (pos, RunPhase::Recording, CleanupAction::MarkFailed { id: task.id, error: e })
        }),
{
}

} // verus!
