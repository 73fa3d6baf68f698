//! The scheduler: the record of every task, the commands on tasks, and the
//! choice of the tasks that run.

use crate::config::{Action, Mode, NetworkState};
use crate::error::ErrorCode;
use crate::info::State;
use crate::qos::{
    capacity_at, capacity_for_level, eligible, is_candidate_id, remove_uid, removed_uid,
    reschedule_action, Admission, Front, FrontView, TaskQosInfo,
};
use crate::queue::{distinct, is_timed_out, list_contains, timed_out, without, RunningQueue};
use crate::reason::Reason;
use crate::request_task::{check_transition, transition_allowed};
use vstd::prelude::*;

verus! {

/// How many tasks of one application may be unfinished in the background.
pub const MAX_BACKGROUND_TASK: usize = 100;

/// How many tasks of one application may be unfinished in the foreground.
pub const MAX_FRONTEND_TASK: usize = 2000;

/// What is recorded of a task.
#[derive(Clone, Copy, PartialEq, Eq, Structural, Debug)]
pub struct TaskEntry {
    pub qos: TaskQosInfo,
    pub reason: Reason,
    pub mtime: u64,
    /// Whether every file is processed to its end.
    pub finished: bool,
}

/// What the scheduler asks of those around it.
#[derive(Clone, Copy, PartialEq, Eq, Structural, Debug)]
pub enum SchedulerEvent {
    /// A task changed its state: subscribers are to be told.
    StateChanged { task_id: u32, state: State, reason: Reason },
    /// The transfer of a task is to be started.
    Start { task_id: u32 },
    /// The transfer of a task is to be cancelled.
    Cancel { task_id: u32 },
    /// The running tasks are to be chosen anew.
    Reschedule,
}

/// The position of the first entry with the id, or the length if there is
/// none.
pub open spec fn index_of(tasks: Seq<TaskEntry>, id: u32) -> int
    decreases tasks.len(),
{
    if tasks.len() == 0 {
        0
    } else if tasks[0].qos.task_id == id {
        0
    } else {
        1 + index_of(tasks.drop_first(), id)
    }
}

/// The entry with the id, if there is one.
pub open spec fn entry_of(tasks: Seq<TaskEntry>, id: u32) -> Option<TaskEntry> {
    if index_of(tasks, id) < tasks.len() {
        Some(tasks[index_of(tasks, id)])
    } else {
        None
    }
}

/// No two entries have the same id.
pub open spec fn distinct_ids(tasks: Seq<TaskEntry>) -> bool {
    forall|i: int, j: int|
        0 <= i < j < tasks.len() ==> (#[trigger] tasks[i]).qos.task_id != (
        #[trigger] tasks[j]).qos.task_id
}

pub proof fn lemma_index_of(tasks: Seq<TaskEntry>, id: u32)
    ensures
        0 <= index_of(tasks, id) <= tasks.len(),
        index_of(tasks, id) < tasks.len() ==> tasks[index_of(tasks, id)].qos.task_id == id,
        forall|i: int| 0 <= i < index_of(tasks, id) ==> (#[trigger] tasks[i]).qos.task_id != id,
    decreases tasks.len(),
{
    if tasks.len() > 0 && tasks[0].qos.task_id != id {
        let rest = tasks.drop_first();
        lemma_index_of(rest, id);
        assert forall|i: int| 0 <= i < index_of(tasks, id) implies (
        #[trigger] tasks[i]).qos.task_id != id by {
            if i > 0 {
                assert(tasks[i] == rest[i - 1]);
            }
        }
    }
}

/// Where ids are distinct, an entry is found at its own position.
pub proof fn lemma_index_of_unique(tasks: Seq<TaskEntry>, i: int)
    requires
        distinct_ids(tasks),
        0 <= i < tasks.len(),
    ensures
        index_of(tasks, tasks[i].qos.task_id) == i,
{
    let id = tasks[i].qos.task_id;
    lemma_index_of(tasks, id);
    let p = index_of(tasks, id);
    if p < i {
        assert(tasks[p].qos.task_id != tasks[i].qos.task_id);
    }
    if p > i {
        assert(tasks[i].qos.task_id != id);
    }
}

/// Replacing an entry by one with the same id changes what is found for
/// that id only.
#[verifier::rlimit(50)]
pub proof fn lemma_update_entry(tasks: Seq<TaskEntry>, i: int, e: TaskEntry, other: u32)
    requires
        distinct_ids(tasks),
        0 <= i < tasks.len(),
        e.qos.task_id == tasks[i].qos.task_id,
    ensures
        distinct_ids(tasks.update(i, e)),
        entry_of(tasks.update(i, e), e.qos.task_id) == Some(e),
        other != e.qos.task_id ==> entry_of(tasks.update(i, e), other) == entry_of(tasks, other),
{
    let t = tasks.update(i, e);
    assert forall|a: int, b: int| 0 <= a < b < t.len() implies (#[trigger] t[a]).qos.task_id != (
    #[trigger] t[b]).qos.task_id by {
        assert(tasks[a].qos.task_id != tasks[b].qos.task_id);
    }
    lemma_index_of_unique(t, i);
    if other != e.qos.task_id {
        lemma_index_of(tasks, other);
        lemma_index_of(t, other);
        let p = index_of(tasks, other);
        let q = index_of(t, other);
        if p < tasks.len() {
            assert(t[p] == tasks[p]);
            if q < p {
                assert(t[q].qos.task_id == other);
                assert(tasks[q].qos.task_id != other);
            }
            if q > p {
                assert(t[p].qos.task_id != other);
            }
        } else {
            if q < t.len() {
                assert(t[q].qos.task_id == other);
                assert(tasks[q].qos.task_id != other);
            }
        }
    }
}

/// How many of the first `n` entries are unfinished tasks of the
/// application in the mode.
pub open spec fn count_active(tasks: Seq<TaskEntry>, n: int, uid: u64, mode: Mode) -> int
    decreases n,
{
    if n <= 0 {
        0
    } else {
        count_active(tasks, n - 1, uid, mode) + (if tasks[n - 1].qos.uid == uid && tasks[n
            - 1].qos.mode == mode && !tasks[n - 1].qos.state.spec_is_terminal() {
            1int
        } else {
            0int
        })
    }
}

/// The most unfinished tasks that one application may have in a mode.
pub open spec fn quota_of(mode: Mode) -> int {
    if mode == Mode::BackGround {
        MAX_BACKGROUND_TASK as int
    } else {
        MAX_FRONTEND_TASK as int
    }
}

/// What a caller asks for when it makes a task, as far as the scheduler
/// looks at it.
#[derive(Clone, Copy, Debug)]
pub struct NewTask {
    pub qos: TaskQosInfo,
    /// How many files the task has.
    pub files: usize,
}

/// Whether a new task is accepted, given the tasks there are: it needs a
/// file, a definite action, an id that is free, and a place in the quota
/// of its application.
pub open spec fn construct_outcome(tasks: Seq<TaskEntry>, new: NewTask) -> Result<u32, ErrorCode> {
    if new.files == 0 {
        Err(ErrorCode::FileOperationErr)
    } else if new.qos.action == Action::Any {
        Err(ErrorCode::ParameterCheck)
    } else if entry_of(tasks, new.qos.task_id).is_some() {
        Err(ErrorCode::Other)
    } else if count_active(tasks, tasks.len() as int, new.qos.uid, new.qos.mode) >= quota_of(
        new.qos.mode,
    ) {
        Err(ErrorCode::TaskEnqueueErr)
    } else {
        Ok(new.qos.task_id)
    }
}

/// What a change of state comes to for an entry: a task that is not there
/// is not found; a change to the state that the task is in is refused,
/// and of a removed task it is said that it is not found; a change that
/// the table does not allow is refused.
pub open spec fn change_outcome(entry: Option<TaskEntry>, to: State) -> Result<(), ErrorCode> {
    match entry {
        None => Err(ErrorCode::TaskNotFound),
        Some(e) => if e.qos.state == to {
            if to == State::Removed {
                Err(ErrorCode::TaskNotFound)
            } else {
                Err(ErrorCode::TaskStateErr)
            }
        } else if !transition_allowed(e.qos.state, to, e.qos.action) {
            Err(ErrorCode::TaskStateErr)
        } else {
            Ok(())
        },
    }
}

/// An entry after a change of state at `time`.
pub open spec fn entry_after(e: TaskEntry, to: State, reason: Reason, time: u64) -> TaskEntry {
    TaskEntry { qos: TaskQosInfo { state: to, ..e.qos }, reason, mtime: time, ..e }
}

/// The scheduler.
pub struct Scheduler {
    tasks: Vec<TaskEntry>,
    queue: RunningQueue,
    network: NetworkState,
    top_uid: u64,
    graced: Vec<u64>,
    rss_level: i32,
    resort_scheduled: bool,
    events: Vec<SchedulerEvent>,
}

impl Scheduler {
    /// The record of every task.
    pub closed spec fn tasks(&self) -> Seq<TaskEntry> {
        self.tasks@
    }

    /// The ids of the tasks that are running.
    pub closed spec fn running(&self) -> Seq<u32> {
        self.queue@
    }

    /// What the scheduler has asked for and nobody has taken yet.
    pub closed spec fn events(&self) -> Seq<SchedulerEvent> {
        self.events@
    }

    /// Whether a new choice of the running tasks is due.
    pub closed spec fn pending(&self) -> bool {
        self.resort_scheduled
    }

    pub closed spec fn network(&self) -> NetworkState {
        self.network
    }

    pub closed spec fn top_uid(&self) -> u64 {
        self.top_uid
    }

    /// The applications that left the front and whose time of grace has
    /// not ended.
    pub closed spec fn graced(&self) -> Seq<u64> {
        self.graced@
    }

    /// The applications that count as being in front.
    pub open spec fn front(&self) -> FrontView {
        FrontView { top_uid: self.top_uid(), graced: self.graced() }
    }

    pub closed spec fn rss_level(&self) -> i32 {
        self.rss_level
    }

    /// What is recorded of task `id`.
    pub open spec fn task(&self, id: u32) -> Option<TaskEntry> {
        entry_of(self.tasks(), id)
    }

    /// The invariant of the scheduler: no id is recorded twice, no task
    /// runs twice, and every running task is recorded in a state in which
    /// it may run.
    pub open spec fn wf(&self) -> bool {
        &&& distinct_ids(self.tasks())
        &&& distinct(self.running())
        &&& forall|k: int|
            0 <= k < self.running().len() ==> match entry_of(
                self.tasks(),
                #[trigger] self.running()[k],
            ) {
                Some(e) => e.qos.state.spec_is_schedulable(),
                None => false,
            }
    }

    /// A scheduler without tasks, in the given environment.
    pub fn new(network: NetworkState, top_uid: u64, rss_level: i32) -> (s: Scheduler)
        ensures
            s.wf(),
            s.tasks() == Seq::<TaskEntry>::empty(),
            s.running() == Seq::<u32>::empty(),
            s.events() == Seq::<SchedulerEvent>::empty(),
            !s.pending(),
            s.network() == network,
            s.top_uid() == top_uid,
            s.graced() == Seq::<u64>::empty(),
            s.rss_level() == rss_level,
    {
        Scheduler {
            tasks: Vec::new(),
            queue: RunningQueue::new(),
            network,
            top_uid,
            graced: Vec::new(),
            rss_level,
            resort_scheduled: false,
            events: Vec::new(),
        }
    }

    fn find(&self, id: u32) -> (r: Option<usize>)
        ensures
            r.is_some() == entry_of(self.tasks(), id).is_some(),
            r.is_some() ==> r.unwrap() == index_of(self.tasks(), id) && r.unwrap()
                < self.tasks().len(),
    {
        let mut i: usize = 0;
        while i < self.tasks.len()
            invariant
                i <= self.tasks@.len(),
                forall|j: int| 0 <= j < i ==> (#[trigger] self.tasks@[j]).qos.task_id != id,
            decreases self.tasks@.len() - i,
        {
            if self.tasks[i].qos.task_id == id {
                proof {
                    lemma_index_of(self.tasks@, id);
                    let p = index_of(self.tasks@, id);
                    if p < i {
                        assert(self.tasks@[p].qos.task_id != id);
                    }
                    if p > i {
                        assert(self.tasks@[i as int].qos.task_id != id);
                    }
                }
                return Some(i);
            }
            i = i + 1;
        }
        proof {
            lemma_index_of(self.tasks@, id);
            let p = index_of(self.tasks@, id);
            if p < self.tasks@.len() {
                assert(self.tasks@[p].qos.task_id != id);
            }
        }
        None
    }

    /// What is recorded of task `id`.
    pub fn show(&self, id: u32) -> (e: Option<TaskEntry>)
        ensures
            e == self.task(id),
    {
        match self.find(id) {
            Some(i) => Some(self.tasks[i]),
            None => None,
        }
    }

    /// Whether task `id` is running.
    pub fn is_running(&self, id: u32) -> (b: bool)
        ensures
            b == self.running().contains(id),
    {
        self.queue.contains(id)
    }

    /// The ids of the running tasks.
    pub fn running_tasks(&self) -> (v: &Vec<u32>)
        ensures
            v@ == self.running(),
    {
        self.queue.tasks()
    }

    /// Hands out what the scheduler has asked for, and forgets it.
    pub fn take_events(&mut self) -> (v: Vec<SchedulerEvent>)
        requires
            old(self).wf(),
        ensures
            final(self).wf(),
            v@ == old(self).events(),
            final(self).events() == Seq::<SchedulerEvent>::empty(),
            final(self).tasks() == old(self).tasks(),
            final(self).running() == old(self).running(),
            final(self).pending() == old(self).pending(),
            final(self).graced() == old(self).graced(),
    {
        let mut v: Vec<SchedulerEvent> = Vec::new();
        std::mem::swap(&mut self.events, &mut v);
        v
    }

    fn active_count(&self, uid: u64, mode: Mode) -> (n: usize)
        ensures
            n == count_active(self.tasks(), self.tasks().len() as int, uid, mode),
    {
        let mut n: usize = 0;
        let mut i: usize = 0;
        while i < self.tasks.len()
            invariant
                i <= self.tasks@.len(),
                n <= i,
                n == count_active(self.tasks@, i as int, uid, mode),
            decreases self.tasks@.len() - i,
        {
            let e = &self.tasks[i];
            if e.qos.uid == uid && e.qos.mode == mode && !e.qos.state.is_terminal() {
                n = n + 1;
            }
            i = i + 1;
        }
        n
    }

    /// Records a new task at `time`, in the state `Initialized`, if it is
    /// accepted.
    #[verifier::rlimit(50)]
    pub fn construct(&mut self, new: NewTask, time: u64) -> (r: Result<u32, ErrorCode>)
        requires
            old(self).wf(),
        ensures
            final(self).wf(),
            r == construct_outcome(old(self).tasks(), new),
            final(self).running() == old(self).running(),
            final(self).events() == old(self).events(),
            final(self).pending() == old(self).pending(),
            r.is_err() ==> final(self).tasks() == old(self).tasks(),
            r.is_ok() ==> final(self).tasks() == old(self).tasks().push(
                TaskEntry {
                    qos: TaskQosInfo { state: State::Initialized, ctime: time, ..new.qos },
                    reason: Reason::Default,
                    mtime: time,
                    finished: false,
                },
            ),
            final(self)@ == constructed(old(self)@, new, time),
    {
        if new.files == 0 {
            return Err(ErrorCode::FileOperationErr);
        }
        if new.qos.action == Action::Any {
            return Err(ErrorCode::ParameterCheck);
        }
        if self.find(new.qos.task_id).is_some() {
            return Err(ErrorCode::Other);
        }
        let quota = match new.qos.mode {
            Mode::BackGround => MAX_BACKGROUND_TASK,
            _ => MAX_FRONTEND_TASK,
        };
        if self.active_count(new.qos.uid, new.qos.mode) >= quota {
            return Err(ErrorCode::TaskEnqueueErr);
        }
        let mut qos = new.qos;
        qos.state = State::Initialized;
        qos.ctime = time;
        let entry = TaskEntry { qos, reason: Reason::Default, mtime: time, finished: false };
        let ghost before = self.tasks@;
        self.tasks.push(entry);
        proof {
            let after = self.tasks@;
            lemma_index_of(before, new.qos.task_id);
            assert forall|i: int, j: int| 0 <= i < j < after.len() implies (
            #[trigger] after[i]).qos.task_id != (#[trigger] after[j]).qos.task_id by {
                if j < before.len() {
                    assert(before[i].qos.task_id != before[j].qos.task_id);
                } else {
                    assert(after[i] == before[i]);
                }
            }
            assert forall|k: int| 0 <= k < self.running().len() implies match entry_of(
                after,
                #[trigger] self.running()[k],
            ) {
                Some(e) => e.qos.state.spec_is_schedulable(),
                None => false,
            } by {
                let t = self.running()[k];
                lemma_push_entry(before, entry, t);
            }
        }
        Ok(new.qos.task_id)
    }
}

/// What is asked for when task `id` changes to the state `to`:
/// subscribers are told, and a transfer that runs is cancelled where the
/// task may no longer run.
pub open spec fn events_after(
    events: Seq<SchedulerEvent>,
    id: u32,
    to: State,
    reason: Reason,
    was_running: bool,
) -> Seq<SchedulerEvent> {
    let told = events.push(SchedulerEvent::StateChanged { task_id: id, state: to, reason });
    if was_running && !to.spec_is_schedulable() {
        told.push(SchedulerEvent::Cancel { task_id: id })
    } else {
        told
    }
}

/// What is asked for once a new choice of the running tasks is due: the
/// choice itself, unless one is due already.
pub open spec fn schedule_asked(events: Seq<SchedulerEvent>, pending: bool) -> Seq<SchedulerEvent> {
    if pending {
        events
    } else {
        events.push(SchedulerEvent::Reschedule)
    }
}

/// Why a task that was started waits: for a network that fits, for its
/// application to come to the front, or for a place among the running
/// tasks.
pub open spec fn waiting_reason(e: TaskQosInfo, network: NetworkState, front: FrontView) -> Reason {
    match crate::config::spec_satisfy_network(e.network, e.metered, e.roaming, network) {
        Err(reason) => reason,
        Ok(()) => if e.mode == Mode::FrontEnd && !front.holds(e.uid) {
            Reason::AppBackgroundOrTerminate
        } else {
            Reason::RunningTaskMeetLimits
        },
    }
}

/// What starting a task comes to: a task that is not there is not found, a
/// paused task must be resumed instead, and else the task must be allowed
/// to wait.
pub open spec fn start_outcome(entry: Option<TaskEntry>) -> Result<(), ErrorCode> {
    match entry {
        None => Err(ErrorCode::TaskNotFound),
        Some(e) => if e.qos.state == State::Paused {
            Err(ErrorCode::TaskStateErr)
        } else {
            change_outcome(entry, State::Waiting)
        },
    }
}

/// What resuming a task comes to: a task that is not there is not found,
/// only a paused task is resumed, and a foreground task only while its
/// application is in front.
pub open spec fn resume_outcome(entry: Option<TaskEntry>, top_uid: u64) -> Result<(), ErrorCode> {
    match entry {
        None => Err(ErrorCode::TaskNotFound),
        Some(e) => if e.qos.state != State::Paused {
            Err(ErrorCode::TaskStateErr)
        } else if e.qos.mode == Mode::FrontEnd && e.qos.uid != top_uid {
            Err(ErrorCode::TaskStateErr)
        } else {
            Ok(())
        },
    }
}

/// The entry of a task that was started or resumed at `time`: it waits,
/// unless nothing is left to transfer, in which case it is completed.
pub open spec fn started_entry(e: TaskEntry, network: NetworkState, front: FrontView, time: u64) -> TaskEntry {
    if e.finished {
        entry_after(e, State::Completed, Reason::Default, time)
    } else {
        entry_after(e, State::Waiting, waiting_reason(e.qos, network, front), time)
    }
}

/// What is asked for when a task is started or resumed: a task with
/// nothing left to transfer is told to wait, to run and to be completed,
/// one after the other; any other is told to wait, and a new choice of the
/// running tasks is asked for.
pub open spec fn start_events(
    events: Seq<SchedulerEvent>,
    e: TaskEntry,
    network: NetworkState,
    front: FrontView,
    was_running: bool,
    pending: bool,
) -> Seq<SchedulerEvent> {
    let id = e.qos.task_id;
    if e.finished {
        events_after(
            events_after(
                events_after(events, id, State::Waiting, Reason::Default, was_running),
                id,
                State::Running,
                Reason::Default,
                was_running,
            ),
            id,
            State::Completed,
            Reason::Default,
            was_running,
        )
    } else {
        schedule_asked(
            events_after(
                events,
                id,
                State::Waiting,
                waiting_reason(e.qos, network, front),
                was_running,
            ),
            pending,
        )
    }
}

/// All that the scheduler holds, as plain values.
pub struct SchedulerState {
    pub tasks: Seq<TaskEntry>,
    pub running: Seq<u32>,
    pub events: Seq<SchedulerEvent>,
    pub pending: bool,
    pub network: NetworkState,
    pub top_uid: u64,
    pub graced: Seq<u64>,
    pub rss_level: i32,
}

impl View for Scheduler {
    type V = SchedulerState;

    open spec fn view(&self) -> SchedulerState {
        SchedulerState {
            tasks: self.tasks(),
            running: self.running(),
            events: self.events(),
            pending: self.pending(),
            network: self.network(),
            top_uid: self.top_uid(),
            graced: self.graced(),
            rss_level: self.rss_level(),
        }
    }
}

/// The applications that count as being in front.
pub open spec fn front_of(s: SchedulerState) -> FrontView {
    FrontView { top_uid: s.top_uid, graced: s.graced }
}

/// The scheduler after the entry at position `i` was put into the state
/// `to`: the entry is changed, subscribers are told, and a task that may
/// no longer run has left the running ones.
pub open spec fn moved(s: SchedulerState, i: int, to: State, reason: Reason, time: u64) -> SchedulerState {
    let id = s.tasks[i].qos.task_id;
    SchedulerState {
        tasks: s.tasks.update(i, entry_after(s.tasks[i], to, reason, time)),
        running: if to.spec_is_schedulable() {
            s.running
        } else {
            without(s.running, s.running.len() as int, seq![id])
        },
        events: events_after(s.events, id, to, reason, s.running.contains(id)),
        ..s
    }
}

/// The scheduler after a new choice of the running tasks was asked for.
pub open spec fn asked(s: SchedulerState) -> SchedulerState {
    SchedulerState { pending: true, events: schedule_asked(s.events, s.pending), ..s }
}

/// The scheduler after task `id` was to change to the state `to`: where
/// the change is refused, nothing has changed.
pub open spec fn changed(s: SchedulerState, id: u32, to: State, reason: Reason, time: u64) -> SchedulerState {
    if change_outcome(entry_of(s.tasks, id), to).is_ok() {
        moved(s, index_of(s.tasks, id), to, reason, time)
    } else {
        s
    }
}

/// The scheduler after a user asked for task `id` to be paused, stopped
/// or removed: where that is allowed, the task has changed and a new
/// choice of the running tasks is asked for.
pub open spec fn commanded(s: SchedulerState, id: u32, to: State, time: u64) -> SchedulerState {
    if change_outcome(entry_of(s.tasks, id), to).is_ok() {
        asked(moved(s, index_of(s.tasks, id), to, Reason::UserOperation, time))
    } else {
        s
    }
}

/// What starting or resuming task `id` comes to.
pub open spec fn launch_outcome(s: SchedulerState, id: u32, is_resume: bool) -> Result<(), ErrorCode> {
    if is_resume {
        resume_outcome(entry_of(s.tasks, id), s.top_uid)
    } else {
        start_outcome(entry_of(s.tasks, id))
    }
}

/// The scheduler after task `id` was to be started or resumed: where that
/// is allowed, a task with nothing left to transfer has gone through
/// waiting and running to completed, and any other waits, with a new
/// choice of the running tasks asked for.
pub open spec fn launched(s: SchedulerState, id: u32, is_resume: bool, time: u64) -> SchedulerState {
    if launch_outcome(s, id, is_resume).is_ok() {
        let i = index_of(s.tasks, id);
        let e = s.tasks[i];
        if e.finished {
            moved(
                moved(
                    moved(s, i, State::Waiting, Reason::Default, time),
                    i,
                    State::Running,
                    Reason::Default,
                    time,
                ),
                i,
                State::Completed,
                Reason::Default,
                time,
            )
        } else {
            asked(moved(s, i, State::Waiting, waiting_reason(e.qos, s.network, front_of(s)), time))
        }
    } else {
        s
    }
}

/// The scheduler after it was noted for task `id` whether anything is left
/// to transfer.
pub open spec fn noted(s: SchedulerState, id: u32, finished: bool) -> SchedulerState {
    if entry_of(s.tasks, id).is_some() {
        SchedulerState {
            tasks: s.tasks.update(
                index_of(s.tasks, id),
                TaskEntry { finished, ..s.tasks[index_of(s.tasks, id)] },
            ),
            ..s
        }
    } else {
        s
    }
}

/// The scheduler after the transfer of task `id` broke off at `time` to
/// wait for the network: the task has left the running ones, and where it
/// was recorded as running it waits for the network, with a new choice of
/// the running tasks asked for.
pub open spec fn went_offline(s: SchedulerState, id: u32, time: u64) -> SchedulerState {
    let left = SchedulerState {
        running: without(s.running, s.running.len() as int, seq![id]),
        ..s
    };
    match entry_of(s.tasks, id) {
        Some(e) => if e.qos.state == State::Running || e.qos.state == State::Retrying {
            asked(moved(left, index_of(s.tasks, id), State::Waiting, Reason::NetworkOffline, time))
        } else {
            left
        },
        None => left,
    }
}

/// The applications in their time of grace after `left` left the front
/// and `came` came to it: those before but for the two, and `left`.
pub open spec fn graced_after(graced: Seq<u64>, left: u64, came: u64) -> Seq<u64> {
    let others = removed_uid(graced, graced.len() as int, came);
    removed_uid(others, others.len() as int, left).push(left)
}

/// The scheduler after a new task was to be recorded at `time`.
pub open spec fn constructed(s: SchedulerState, new: NewTask, time: u64) -> SchedulerState {
    if construct_outcome(s.tasks, new).is_ok() {
        SchedulerState {
            tasks: s.tasks.push(
                TaskEntry {
                    qos: TaskQosInfo { state: State::Initialized, ctime: time, ..new.qos },
                    reason: Reason::Default,
                    mtime: time,
                    finished: false,
                },
            ),
            ..s
        }
    } else {
        s
    }
}

fn reason_to_wait(e: &TaskQosInfo, network: NetworkState, front: &Front) -> (r: Reason)
    ensures
        r == waiting_reason(*e, network, front@),
{
    let network_verdict = match network {
        NetworkState::Offline => Err(Reason::NetworkOffline),
        NetworkState::Online(info) => {
            if e.network == crate::config::NetworkConfig::Any {
                Ok(())
            } else if e.network == crate::config::NetworkConfig::Wifi && info.network_type
                == crate::config::NetworkType::Cellular {
                Err(Reason::UnsupportedNetworkType)
            } else if (e.roaming || !info.is_roaming) && (e.metered || !info.is_metered) {
                Ok(())
            } else {
                Err(Reason::UnsupportedNetworkType)
            }
        },
    };
    match network_verdict {
        Err(reason) => reason,
        Ok(()) => {
            if e.mode == Mode::FrontEnd && e.uid != front.top_uid && !crate::qos::holds_uid(
                &front.graced,
                e.uid,
            ) {
                Reason::AppBackgroundOrTerminate
            } else {
                Reason::RunningTaskMeetLimits
            }
        },
    }
}

impl Scheduler {
    fn waiting_reason_of(&self, e: &TaskQosInfo) -> (r: Reason)
        ensures
            r == waiting_reason(*e, self.network(), self.front()),
    {
        let front = self.front_now();
        reason_to_wait(e, self.network, &front)
    }

    /// Puts the entry at position `i` into the state `to`, whatever the
    /// table says, tells subscribers, and takes the task out of the
    /// running ones where it may no longer run.
    #[verifier::rlimit(50)]
    fn transition(&mut self, i: usize, to: State, reason: Reason, time: u64)
        requires
            old(self).wf(),
            i < old(self).tasks().len(),
        ensures
            final(self).wf(),
            final(self).tasks() == old(self).tasks().update(
                i as int,
                entry_after(old(self).tasks()[i as int], to, reason, time),
            ),
            final(self).task(old(self).tasks()[i as int].qos.task_id) == Some(
                entry_after(old(self).tasks()[i as int], to, reason, time),
            ),
            forall|other: u32|
                other != old(self).tasks()[i as int].qos.task_id ==> (#[trigger] entry_of(final(self).tasks(), other)) == entry_of(
                    old(self).tasks(),
                    other,
                ),
            to.spec_is_schedulable() ==> final(self).running() == old(self).running(),
            !final(self).running().contains(old(self).tasks()[i as int].qos.task_id)
                || to.spec_is_schedulable(),
            forall|t: u32|
                t != old(self).tasks()[i as int].qos.task_id ==> (final(self).running().contains(t)
                    <==> old(self).running().contains(t)),
            final(self).events() == events_after(
                old(self).events(),
                old(self).tasks()[i as int].qos.task_id,
                to,
                reason,
                old(self).running().contains(old(self).tasks()[i as int].qos.task_id),
            ),
            final(self).pending() == old(self).pending(),
            final(self).network() == old(self).network(),
            final(self).top_uid() == old(self).top_uid(),
            final(self).rss_level() == old(self).rss_level(),
            final(self)@ == moved(old(self)@, i as int, to, reason, time),
    {
        let old_entry = self.tasks[i];
        let id = old_entry.qos.task_id;
        let mut qos = old_entry.qos;
        qos.state = to;
        let entry = TaskEntry { qos, reason, mtime: time, finished: old_entry.finished };
        let ghost before = self.tasks@;
        let ghost running_before = self.queue@;
        self.tasks.set(i, entry);
        self.events.push(SchedulerEvent::StateChanged { task_id: id, state: to, reason });
        let was_running = self.queue.contains(id);
        if !to.is_schedulable() {
            if was_running {
                self.events.push(SchedulerEvent::Cancel { task_id: id });
            }
            let _ = self.queue.task_finish(id);
        }
        proof {
            let after = self.tasks@;
            assert forall|other: u32|
                other != id implies entry_of(after, other) == entry_of(before, other) by {
                lemma_update_entry(before, i as int, entry, other);
            }
            lemma_update_entry(before, i as int, entry, id);
            assert forall|k: int| 0 <= k < self.queue@.len() implies match entry_of(
                after,
                #[trigger] self.queue@[k],
            ) {
                Some(e) => e.qos.state.spec_is_schedulable(),
                None => false,
            } by {
                let t = self.queue@[k];
                assert(self.queue@.contains(t));
                if t != id {
                    assert(running_before.contains(t));
                    let j = choose|j: int| 0 <= j < running_before.len() && running_before[j] == t;
                    assert(running_before[j] == t);
                }
            }
        }
    }

    /// Notes for task `id` whether every file is processed to its end, so
    /// that nothing is left to transfer. Returns whether there is such a
    /// task.
    pub fn set_finished(&mut self, id: u32, finished: bool) -> (found: bool)
        requires
            old(self).wf(),
        ensures
            final(self).wf(),
            found == old(self).task(id).is_some(),
            final(self)@ == noted(old(self)@, id, finished),
    {
        let i = match self.find(id) {
            Some(i) => i,
            None => {
                return false;
            },
        };
        let old_entry = self.tasks[i];
        let entry = TaskEntry { finished, ..old_entry };
        let ghost before = self.tasks@;
        self.tasks.set(i, entry);
        proof {
            lemma_index_of(before, id);
            lemma_update_entry(before, i as int, entry, id);
            assert forall|k: int| 0 <= k < self.queue@.len() implies match entry_of(
                self.tasks@,
                #[trigger] self.queue@[k],
            ) {
                Some(e) => e.qos.state.spec_is_schedulable(),
                None => false,
            } by {
                let t = self.queue@[k];
                lemma_update_entry(before, i as int, entry, t);
            }
        }
        true
    }

    /// Asks for a new choice of the running tasks, unless one is due
    /// already.
    pub fn schedule_if_not_scheduled(&mut self)
        requires
            old(self).wf(),
        ensures
            final(self).wf(),
            final(self).pending(),
            final(self).tasks() == old(self).tasks(),
            final(self).running() == old(self).running(),
            final(self).network() == old(self).network(),
            final(self).top_uid() == old(self).top_uid(),
            final(self).rss_level() == old(self).rss_level(),
            final(self).events() == (if old(self).pending() {
                old(self).events()
            } else {
                old(self).events().push(SchedulerEvent::Reschedule)
            }),
            final(self)@ == asked(old(self)@),
    {
        if self.resort_scheduled {
            return ;
        }
        self.resort_scheduled = true;
        self.events.push(SchedulerEvent::Reschedule);
    }

    /// Changes the state of task `id` at `time`, if there is such a task
    /// and the change is allowed. Nothing changes where it is not.
    pub fn change_status(&mut self, id: u32, to: State, reason: Reason, time: u64) -> (r: Result<
        (),
        ErrorCode,
    >)
        requires
            old(self).wf(),
        ensures
            final(self).wf(),
            r == change_outcome(old(self).task(id), to),
            final(self).pending() == old(self).pending(),
            final(self).tasks().len() == old(self).tasks().len(),
            r.is_err() ==> final(self).tasks() == old(self).tasks() && final(self).running()
                == old(self).running() && final(self).events() == old(self).events(),
            r.is_ok() ==> final(self).task(id) == Some(
                entry_after(old(self).task(id).unwrap(), to, reason, time),
            ) && final(self).events() == events_after(
                old(self).events(),
                id,
                to,
                reason,
                old(self).running().contains(id),
            ) && (final(self).running().contains(id) ==> to.spec_is_schedulable()),
            forall|other: u32| other != id ==> (#[trigger] entry_of(final(self).tasks(), other)) == entry_of(
                    old(self).tasks(),
                    other,
                ),
            forall|t: u32|
                t != id ==> (final(self).running().contains(t) <==> old(self).running().contains(
                    t,
                )),
            final(self)@ == changed(old(self)@, id, to, reason, time),
    {
        let i = match self.find(id) {
            Some(i) => i,
            None => {
                return Err(ErrorCode::TaskNotFound);
            },
        };
        proof {
            lemma_index_of(self.tasks@, id);
        }
        let e = self.tasks[i];
        if e.qos.state == to {
            if to == State::Removed {
                return Err(ErrorCode::TaskNotFound);
            }
            return Err(ErrorCode::TaskStateErr);
        }
        if !check_transition(e.qos.state, to, e.qos.action) {
            return Err(ErrorCode::TaskStateErr);
        }
        self.transition(i, to, reason, time);
        Ok(())
    }

    #[verifier::rlimit(50)]
    fn start_inner(&mut self, id: u32, is_resume: bool, time: u64) -> (r: Result<(), ErrorCode>)
        requires
            old(self).wf(),
        ensures
            final(self).wf(),
            r == (if is_resume {
                resume_outcome(old(self).task(id), old(self).top_uid())
            } else {
                start_outcome(old(self).task(id))
            }),
            final(self).tasks().len() == old(self).tasks().len(),
            r.is_err() ==> final(self).tasks() == old(self).tasks() && final(self).running()
                == old(self).running() && final(self).events() == old(self).events() && final(self).pending() == old(self).pending(),
            r.is_ok() ==> final(self).task(id) == Some(
                started_entry(
                    old(self).task(id).unwrap(),
                    old(self).network(),
                    old(self).front(),
                    time,
                ),
            ) && (old(self).task(id).unwrap().finished || final(self).pending()) && final(self).events() == start_events(
                old(self).events(),
                old(self).task(id).unwrap(),
                old(self).network(),
                old(self).front(),
                old(self).running().contains(id),
                old(self).pending(),
            ),
            forall|other: u32| other != id ==> (#[trigger] entry_of(final(self).tasks(), other)) == entry_of(
                    old(self).tasks(),
                    other,
                ),
            forall|t: u32|
                t != id ==> (final(self).running().contains(t) <==> old(self).running().contains(
                    t,
                )),
            final(self).network() == old(self).network(),
            final(self).top_uid() == old(self).top_uid(),
            final(self).rss_level() == old(self).rss_level(),
            final(self)@ == launched(old(self)@, id, is_resume, time),
    {
        let i = match self.find(id) {
            Some(i) => i,
            None => {
                return Err(ErrorCode::TaskNotFound);
            },
        };
        proof {
            lemma_index_of(self.tasks@, id);
        }
        let e = self.tasks[i];
        let paused = e.qos.state == State::Paused;
        if is_resume != paused {
            return Err(ErrorCode::TaskStateErr);
        }
        if is_resume && e.qos.mode == Mode::FrontEnd && e.qos.uid != self.top_uid {
            return Err(ErrorCode::TaskStateErr);
        }
        if e.qos.state == State::Waiting || !check_transition(
            e.qos.state,
            State::Waiting,
            e.qos.action,
        ) {
            return Err(ErrorCode::TaskStateErr);
        }
        if e.finished {
            self.transition(i, State::Waiting, Reason::Default, time);
            self.transition(i, State::Running, Reason::Default, time);
            self.transition(i, State::Completed, Reason::Default, time);
        } else {
            let reason = self.waiting_reason_of(&e.qos);
            self.transition(i, State::Waiting, reason, time);
            self.schedule_if_not_scheduled();
        }
        Ok(())
    }

    /// Starts task `id` at `time`: it waits for its turn, or is completed
    /// at once where nothing is left to transfer.
    pub fn start(&mut self, id: u32, time: u64) -> (r: Result<(), ErrorCode>)
        requires
            old(self).wf(),
        ensures
            final(self).wf(),
            r == start_outcome(old(self).task(id)),
            final(self).tasks().len() == old(self).tasks().len(),
            r.is_err() ==> final(self).tasks() == old(self).tasks() && final(self).running()
                == old(self).running() && final(self).events() == old(self).events(),
            r.is_ok() ==> final(self).task(id) == Some(
                started_entry(
                    old(self).task(id).unwrap(),
                    old(self).network(),
                    old(self).front(),
                    time,
                ),
            ) && final(self).events() == start_events(
                old(self).events(),
                old(self).task(id).unwrap(),
                old(self).network(),
                old(self).front(),
                old(self).running().contains(id),
                old(self).pending(),
            ),
            forall|other: u32| other != id ==> (#[trigger] entry_of(final(self).tasks(), other)) == entry_of(
                    old(self).tasks(),
                    other,
                ),
            final(self)@ == launched(old(self)@, id, false, time),
    {
        self.start_inner(id, false, time)
    }

    /// Resumes the paused task `id` at `time`.
    pub fn resume(&mut self, id: u32, time: u64) -> (r: Result<(), ErrorCode>)
        requires
            old(self).wf(),
        ensures
            final(self).wf(),
            r == resume_outcome(old(self).task(id), old(self).top_uid()),
            final(self).tasks().len() == old(self).tasks().len(),
            r.is_err() ==> final(self).tasks() == old(self).tasks() && final(self).running()
                == old(self).running() && final(self).events() == old(self).events(),
            r.is_ok() ==> final(self).task(id) == Some(
                started_entry(
                    old(self).task(id).unwrap(),
                    old(self).network(),
                    old(self).front(),
                    time,
                ),
            ) && final(self).events() == start_events(
                old(self).events(),
                old(self).task(id).unwrap(),
                old(self).network(),
                old(self).front(),
                old(self).running().contains(id),
                old(self).pending(),
            ),
            forall|other: u32| other != id ==> (#[trigger] entry_of(final(self).tasks(), other)) == entry_of(
                    old(self).tasks(),
                    other,
                ),
            final(self)@ == launched(old(self)@, id, true, time),
    {
        self.start_inner(id, true, time)
    }

    fn user_change(&mut self, id: u32, to: State, time: u64) -> (r: Result<(), ErrorCode>)
        requires
            old(self).wf(),
        ensures
            final(self).wf(),
            r == change_outcome(old(self).task(id), to),
            final(self).tasks().len() == old(self).tasks().len(),
            r.is_err() ==> final(self).tasks() == old(self).tasks() && final(self).running()
                == old(self).running() && final(self).events() == old(self).events(),
            r.is_ok() ==> final(self).task(id) == Some(
                entry_after(old(self).task(id).unwrap(), to, Reason::UserOperation, time),
            ) && final(self).pending() && (final(self).running().contains(id)
                ==> to.spec_is_schedulable()) && final(self).events() == schedule_asked(
                events_after(
                    old(self).events(),
                    id,
                    to,
                    Reason::UserOperation,
                    old(self).running().contains(id),
                ),
                old(self).pending(),
            ),
            forall|other: u32| other != id ==> (#[trigger] entry_of(final(self).tasks(), other)) == entry_of(
                    old(self).tasks(),
                    other,
                ),
            forall|t: u32|
                t != id ==> (final(self).running().contains(t) <==> old(self).running().contains(
                    t,
                )),
            final(self)@ == commanded(old(self)@, id, to, time),
    {
        match self.change_status(id, to, Reason::UserOperation, time) {
            Ok(()) => {
                self.schedule_if_not_scheduled();
                Ok(())
            },
            Err(e) => Err(e),
        }
    }

    /// Pauses task `id` at `time`.
    pub fn pause(&mut self, id: u32, time: u64) -> (r: Result<(), ErrorCode>)
        requires
            old(self).wf(),
        ensures
            final(self).wf(),
            r == change_outcome(old(self).task(id), State::Paused),
            r.is_err() ==> final(self).tasks() == old(self).tasks() && final(self).running()
                == old(self).running() && final(self).events() == old(self).events(),
            r.is_ok() ==> final(self).task(id) == Some(
                entry_after(
                    old(self).task(id).unwrap(),
                    State::Paused,
                    Reason::UserOperation,
                    time,
                ),
            ) && !final(self).running().contains(id) && final(self).events() == schedule_asked(
                events_after(
                    old(self).events(),
                    id,
                    State::Paused,
                    Reason::UserOperation,
                    old(self).running().contains(id),
                ),
                old(self).pending(),
            ),
            forall|other: u32| other != id ==> (#[trigger] entry_of(final(self).tasks(), other)) == entry_of(
                    old(self).tasks(),
                    other,
                ),
            final(self)@ == commanded(old(self)@, id, State::Paused, time),
    {
        self.user_change(id, State::Paused, time)
    }

    /// Stops task `id` at `time`.
    pub fn stop(&mut self, id: u32, time: u64) -> (r: Result<(), ErrorCode>)
        requires
            old(self).wf(),
        ensures
            final(self).wf(),
            r == change_outcome(old(self).task(id), State::Stopped),
            r.is_err() ==> final(self).tasks() == old(self).tasks() && final(self).running()
                == old(self).running() && final(self).events() == old(self).events(),
            r.is_ok() ==> final(self).task(id) == Some(
                entry_after(
                    old(self).task(id).unwrap(),
                    State::Stopped,
                    Reason::UserOperation,
                    time,
                ),
            ) && !final(self).running().contains(id) && final(self).events() == schedule_asked(
                events_after(
                    old(self).events(),
                    id,
                    State::Stopped,
                    Reason::UserOperation,
                    old(self).running().contains(id),
                ),
                old(self).pending(),
            ),
            forall|other: u32| other != id ==> (#[trigger] entry_of(final(self).tasks(), other)) == entry_of(
                    old(self).tasks(),
                    other,
                ),
            final(self)@ == commanded(old(self)@, id, State::Stopped, time),
    {
        self.user_change(id, State::Stopped, time)
    }

    /// Removes task `id` at `time`. Its record stays, in the state
    /// `Removed`, until it is purged.
    pub fn remove(&mut self, id: u32, time: u64) -> (r: Result<(), ErrorCode>)
        requires
            old(self).wf(),
        ensures
            final(self).wf(),
            r == change_outcome(old(self).task(id), State::Removed),
            r.is_err() ==> final(self).tasks() == old(self).tasks() && final(self).running()
                == old(self).running() && final(self).events() == old(self).events(),
            r.is_ok() ==> final(self).task(id) == Some(
                entry_after(
                    old(self).task(id).unwrap(),
                    State::Removed,
                    Reason::UserOperation,
                    time,
                ),
            ) && !final(self).running().contains(id) && final(self).events() == schedule_asked(
                events_after(
                    old(self).events(),
                    id,
                    State::Removed,
                    Reason::UserOperation,
                    old(self).running().contains(id),
                ),
                old(self).pending(),
            ),
            forall|other: u32| other != id ==> (#[trigger] entry_of(final(self).tasks(), other)) == entry_of(
                    old(self).tasks(),
                    other,
                ),
            final(self)@ == commanded(old(self)@, id, State::Removed, time),
    {
        self.user_change(id, State::Removed, time)
    }

    /// Notes that the transfer of task `id` broke off at `time` because
    /// the network went away, and that the task is one that waits for it:
    /// the task leaves the running ones and waits, for want of a network.
    #[verifier::rlimit(50)]
    pub fn task_offline(&mut self, id: u32, time: u64)
        requires
            old(self).wf(),
        ensures
            final(self).wf(),
            final(self)@ == went_offline(old(self)@, id, time),
    {
        let ghost running_before = self.queue@;
        let _ = self.queue.task_finish(id);
        proof {
            assert forall|k: int| 0 <= k < self.queue@.len() implies match entry_of(
                self.tasks@,
                #[trigger] self.queue@[k],
            ) {
                Some(e) => e.qos.state.spec_is_schedulable(),
                None => false,
            } by {
                let t = self.queue@[k];
                assert(self.queue@.contains(t));
                assert(running_before.contains(t));
                let j = choose|j: int| 0 <= j < running_before.len() && running_before[j] == t;
                assert(running_before[j] == t);
            }
        }
        let i = match self.find(id) {
            Some(i) => i,
            None => {
                return ;
            },
        };
        proof {
            lemma_index_of(self.tasks@, id);
        }
        let e = self.tasks[i];
        if e.qos.state == State::Running || e.qos.state == State::Retrying {
            self.transition(i, State::Waiting, Reason::NetworkOffline, time);
            self.schedule_if_not_scheduled();
        }
    }

    /// Notes that the transfer of task `id` ended at `time`, with success
    /// (`None`) or for a cause. The task leaves the running ones; its state
    /// follows where the table allows it.
    #[verifier::rlimit(50)]
    pub fn task_finished(&mut self, id: u32, failure: Option<Reason>, time: u64)
        requires
            old(self).wf(),
        ensures
            final(self).wf(),
            !final(self).running().contains(id),
            final(self).tasks().len() == old(self).tasks().len(),
            forall|other: u32| other != id ==> (#[trigger] entry_of(final(self).tasks(), other)) == entry_of(
                    old(self).tasks(),
                    other,
                ),
            forall|t: u32|
                t != id ==> (final(self).running().contains(t) <==> old(self).running().contains(
                    t,
                )),
            final(self).events() == (match old(self).task(id) {
                None => old(self).events(),
                Some(e) => {
                    let to = if failure.is_none() {
                        State::Completed
                    } else {
                        State::Failed
                    };
                    let reason = match failure {
                        None => Reason::Default,
                        Some(r) => r,
                    };
                    if transition_allowed(e.qos.state, to, e.qos.action) {
                        schedule_asked(
                            events_after(old(self).events(), id, to, reason, false),
                            old(self).pending(),
                        )
                    } else {
                        old(self).events()
                    }
                },
            }),
            final(self).task(id) == (match old(self).task(id) {
                None => None,
                Some(e) => {
                    let done = TaskEntry { finished: e.finished || failure.is_none(), ..e };
                    let to = if failure.is_none() {
                        State::Completed
                    } else {
                        State::Failed
                    };
                    let reason = match failure {
                        None => Reason::Default,
                        Some(r) => r,
                    };
                    if transition_allowed(e.qos.state, to, e.qos.action) {
                        Some(entry_after(done, to, reason, time))
                    } else {
                        Some(done)
                    }
                },
            }),
            final(self).graced() == old(self).graced(),
    {
        let ghost running_before = self.queue@;
        let ghost tasks_before = self.tasks@;
        let _ = self.queue.task_finish(id);
        proof {
            assert forall|k: int| 0 <= k < self.queue@.len() implies match entry_of(
                self.tasks@,
                #[trigger] self.queue@[k],
            ) {
                Some(e) => e.qos.state.spec_is_schedulable(),
                None => false,
            } by {
                let t = self.queue@[k];
                assert(self.queue@.contains(t));
                assert(running_before.contains(t));
                let j = choose|j: int| 0 <= j < running_before.len() && running_before[j] == t;
                assert(running_before[j] == t);
            }
        }
        let i = match self.find(id) {
            Some(i) => i,
            None => {
                return ;
            },
        };
        proof {
            lemma_index_of(self.tasks@, id);
        }
        let e = self.tasks[i];
        let (to, reason) = match failure {
            None => (State::Completed, Reason::Default),
            Some(r) => (State::Failed, r),
        };
        let done = TaskEntry {
            qos: e.qos,
            reason: e.reason,
            mtime: e.mtime,
            finished: e.finished || failure.is_none(),
        };
        let ghost before = self.tasks@;
        self.tasks.set(i, done);
        proof {
            let after = self.tasks@;
            lemma_update_entry(before, i as int, done, id);
            assert forall|other: u32|
                other != id implies entry_of(after, other) == entry_of(before, other) by {
                lemma_update_entry(before, i as int, done, other);
            }
            assert forall|k: int| 0 <= k < self.queue@.len() implies match entry_of(
                after,
                #[trigger] self.queue@[k],
            ) {
                Some(e) => e.qos.state.spec_is_schedulable(),
                None => false,
            } by {
                let t = self.queue@[k];
                assert(self.queue@.contains(t));
            }
        }
        let ghost mid = self.tasks@;
        if check_transition(e.qos.state, to, e.qos.action) {
            self.transition(i, to, reason, time);
            self.schedule_if_not_scheduled();
        }
        proof {
            assert forall|other: u32| other != id implies (#[trigger] entry_of(
                self.tasks(),
                other,
            )) == entry_of(old(self).tasks(), other) by {
                assert(entry_of(mid, other) == entry_of(before, other));
                assert(done.qos.task_id == id);
                assert(entry_of(self.tasks(), other) == entry_of(mid, other));
            }
        }
    }
}

/// The scheduler's entries as the priority model sees them.
pub open spec fn qos_of(tasks: Seq<TaskEntry>) -> Seq<TaskQosInfo> {
    Seq::new(tasks.len(), |i: int| tasks[i].qos)
}

/// An entry after the running tasks were chosen at `time`: a task that is
/// admitted runs; one that ran and is not admitted waits, for a network
/// that fits, for its application to come to the front, or else for a
/// place among the running tasks; every other entry stays as it is.
pub open spec fn rescheduled(
    e: TaskEntry,
    admitted: bool,
    network: NetworkState,
    front: FrontView,
    time: u64,
) -> TaskEntry {
    let runs = e.qos.state == State::Running || e.qos.state == State::Retrying;
    if admitted && !runs {
        entry_after(e, State::Running, Reason::Default, time)
    } else if !admitted && runs {
        entry_after(e, State::Waiting, waiting_reason(e.qos, network, front), time)
    } else {
        e
    }
}

/// The entries after the running tasks were chosen.
pub open spec fn rescheduled_all(
    tasks: Seq<TaskEntry>,
    admit_list: Seq<u32>,
    network: NetworkState,
    front: FrontView,
    time: u64,
) -> Seq<TaskEntry> {
    Seq::new(
        tasks.len(),
        |i: int|
            rescheduled(
                tasks[i],
                admit_list.contains(tasks[i].qos.task_id),
                network,
                front,
                time,
            ),
    )
}

/// What subscribers are told when the running tasks were chosen: of each
/// of the first `n` entries whose state changed, the new state, in the
/// order of the entries.
pub open spec fn reschedule_events(
    tasks: Seq<TaskEntry>,
    n: int,
    admit_list: Seq<u32>,
    network: NetworkState,
    front: FrontView,
    time: u64,
) -> Seq<SchedulerEvent>
    decreases n,
{
    if n <= 0 {
        Seq::empty()
    } else {
        let e = tasks[n - 1];
        let after = rescheduled(e, admit_list.contains(e.qos.task_id), network, front, time);
        if after.qos.state != e.qos.state {
            reschedule_events(tasks, n - 1, admit_list, network, front, time).push(
                SchedulerEvent::StateChanged {
                    task_id: e.qos.task_id,
                    state: after.qos.state,
                    reason: after.reason,
                },
            )
        } else {
            reschedule_events(tasks, n - 1, admit_list, network, front, time)
        }
    }
}

/// The requests to start the transfers of the tasks.
pub open spec fn start_requests(ids: Seq<u32>) -> Seq<SchedulerEvent> {
    Seq::new(ids.len(), |i: int| SchedulerEvent::Start { task_id: ids[i] })
}

/// The requests to cancel the transfers of the tasks.
pub open spec fn cancel_requests(ids: Seq<u32>) -> Seq<SchedulerEvent> {
    Seq::new(ids.len(), |i: int| SchedulerEvent::Cancel { task_id: ids[i] })
}

/// The tasks that were chosen to run, for either action.
pub struct QosChanges {
    pub download: Admission,
    pub upload: Admission,
}

impl QosChanges {
    /// Whether task `t` is in the admission set.
    pub open spec fn admits(&self, t: u32) -> bool {
        self.download.running@.contains(t) || self.upload.running@.contains(t)
    }
}

fn apply_reschedule(
    tasks: &mut Vec<TaskEntry>,
    events: &mut Vec<SchedulerEvent>,
    admit_list: &Vec<u32>,
    network: NetworkState,
    front: &Front,
    time: u64,
)
    ensures
        final(tasks)@ == rescheduled_all(old(tasks)@, admit_list@, network, front@, time),
        final(events)@ == old(events)@ + reschedule_events(
            old(tasks)@,
            old(tasks)@.len() as int,
            admit_list@,
            network,
            front@,
            time,
        ),
{
    let ghost before = tasks@;
    let ghost list = admit_list@;
    let ghost events0 = events@;
    let mut j: usize = 0;
    proof {
        assert(events@ =~= events0 + reschedule_events(before, 0, list, network, front@, time));
    }
    while j < tasks.len()
        invariant
            j <= tasks@.len(),
            tasks@.len() == before.len(),
            admit_list@ == list,
            events@ == events0 + reschedule_events(before, j as int, list, network, front@, time),
            forall|x: int|
                0 <= x < j ==> tasks@[x] == rescheduled(
                    before[x],
                    list.contains(before[x].qos.task_id),
                    network,
                    front@,
                    time,
                ),
            forall|x: int| j <= x < before.len() ==> tasks@[x] == before[x],
        decreases tasks@.len() - j,
    {
        let e = tasks[j];
        let admitted = list_contains(admit_list, e.qos.task_id);
        let runs = e.qos.state == State::Running || e.qos.state == State::Retrying;
        if admitted && !runs {
            let mut qos = e.qos;
            qos.state = State::Running;
            tasks.set(
                j,
                TaskEntry { qos, reason: Reason::Default, mtime: time, finished: e.finished },
            );
            events.push(
                SchedulerEvent::StateChanged {
                    task_id: e.qos.task_id,
                    state: State::Running,
                    reason: Reason::Default,
                },
            );
        } else if !admitted && runs {
            let reason = reason_to_wait(&e.qos, network, front);
            let mut qos = e.qos;
            qos.state = State::Waiting;
            tasks.set(j, TaskEntry { qos, reason, mtime: time, finished: e.finished });
            events.push(
                SchedulerEvent::StateChanged {
                    task_id: e.qos.task_id,
                    state: State::Waiting,
                    reason,
                },
            );
        }
        proof {
            assert(events@ =~= events0 + reschedule_events(before, j + 1, list, network, front@, time));
        }
        j = j + 1;
    }
    proof {
        assert(tasks@ =~= rescheduled_all(before, list, network, front@, time));
    }
}

fn push_engine_events(events: &mut Vec<SchedulerEvent>, start: &Vec<u32>, cancel: &Vec<u32>)
    ensures
        final(events)@ == old(events)@ + start_requests(start@) + cancel_requests(cancel@),
{
    let ghost events0 = events@;
    let mut a: usize = 0;
    proof {
        assert(events@ =~= events0 + start_requests(start@).take(0));
    }
    while a < start.len()
        invariant
            a <= start@.len(),
            events@ == events0 + start_requests(start@).take(a as int),
        decreases start@.len() - a,
    {
        events.push(SchedulerEvent::Start { task_id: start[a] });
        proof {
            assert(events@ =~= events0 + start_requests(start@).take(a + 1));
        }
        a = a + 1;
    }
    let ghost events1 = events@;
    proof {
        assert(start_requests(start@).take(a as int) =~= start_requests(start@));
        assert(events@ =~= events1 + cancel_requests(cancel@).take(0));
    }
    let mut b: usize = 0;
    while b < cancel.len()
        invariant
            b <= cancel@.len(),
            events@ == events1 + cancel_requests(cancel@).take(b as int),
        decreases cancel@.len() - b,
    {
        events.push(SchedulerEvent::Cancel { task_id: cancel[b] });
        proof {
            assert(events@ =~= events1 + cancel_requests(cancel@).take(b + 1));
        }
        b = b + 1;
    }
    proof {
        assert(cancel_requests(cancel@).take(b as int) =~= cancel_requests(cancel@));
    }
}

proof fn lemma_same_ids(before: Seq<TaskEntry>, after: Seq<TaskEntry>, id: u32)
    requires
        before.len() == after.len(),
        forall|i: int|
            0 <= i < before.len() ==> (#[trigger] after[i]).qos.task_id == before[i].qos.task_id,
    ensures
        index_of(after, id) == index_of(before, id),
        distinct_ids(before) ==> distinct_ids(after),
    decreases before.len(),
{
    if before.len() > 0 {
        assert(after[0].qos.task_id == before[0].qos.task_id);
        let b = before.drop_first();
        let a = after.drop_first();
        assert forall|i: int| 0 <= i < b.len() implies (#[trigger] a[i]).qos.task_id
            == b[i].qos.task_id by {
            assert(a[i] == after[i + 1]);
            assert(b[i] == before[i + 1]);
        }
        lemma_same_ids(b, a, id);
    }
    if distinct_ids(before) {
        assert forall|i: int, j: int| 0 <= i < j < after.len() implies (
        #[trigger] after[i]).qos.task_id != (#[trigger] after[j]).qos.task_id by {
            assert(before[i].qos.task_id != before[j].qos.task_id);
        }
    }
}

impl Scheduler {
    /// Notes the network that the device is on now. A new choice of the
    /// running tasks is asked for where it changed.
    pub fn on_network_change(&mut self, network: NetworkState) -> (changed: bool)
        requires
            old(self).wf(),
        ensures
            final(self).wf(),
            changed == (network != old(self).network()),
            final(self).network() == network,
            final(self).top_uid() == old(self).top_uid(),
            final(self).rss_level() == old(self).rss_level(),
            final(self).tasks() == old(self).tasks(),
            final(self).running() == old(self).running(),
            final(self).events() == (if changed {
                schedule_asked(old(self).events(), old(self).pending())
            } else {
                old(self).events()
            }),
            final(self).pending() == (old(self).pending() || changed),
            final(self).graced() == old(self).graced(),
    {
        if self.network == network {
            return false;
        }
        self.network = network;
        self.schedule_if_not_scheduled();
        true
    }

    /// Notes the application that is in front now. The application that
    /// left the front counts as being in front until its time of grace
    /// ends; the time of grace of the one that came to the front is over.
    pub fn on_app_state_change(&mut self, top_uid: u64) -> (changed: bool)
        requires
            old(self).wf(),
        ensures
            final(self).wf(),
            changed == (top_uid != old(self).top_uid()),
            final(self).top_uid() == top_uid,
            final(self).graced() == (if changed {
                graced_after(old(self).graced(), old(self).top_uid(), top_uid)
            } else {
                old(self).graced()
            }),
            final(self).network() == old(self).network(),
            final(self).rss_level() == old(self).rss_level(),
            final(self).tasks() == old(self).tasks(),
            final(self).running() == old(self).running(),
            final(self).events() == (if changed {
                schedule_asked(old(self).events(), old(self).pending())
            } else {
                old(self).events()
            }),
            final(self).pending() == (old(self).pending() || changed),
    {
        if self.top_uid == top_uid {
            return false;
        }
        let without_new = remove_uid(&self.graced, top_uid);
        let mut graced = remove_uid(&without_new, self.top_uid);
        graced.push(self.top_uid);
        self.graced = graced;
        self.top_uid = top_uid;
        self.schedule_if_not_scheduled();
        true
    }

    /// Notes the level of memory pressure.
    pub fn on_rss_change(&mut self, level: i32) -> (changed: bool)
        requires
            old(self).wf(),
        ensures
            final(self).wf(),
            changed == (level != old(self).rss_level()),
            final(self).rss_level() == level,
            final(self).network() == old(self).network(),
            final(self).top_uid() == old(self).top_uid(),
            final(self).tasks() == old(self).tasks(),
            final(self).running() == old(self).running(),
            final(self).events() == (if changed {
                schedule_asked(old(self).events(), old(self).pending())
            } else {
                old(self).events()
            }),
            final(self).pending() == (old(self).pending() || changed),
            final(self).graced() == old(self).graced(),
    {
        if self.rss_level == level {
            return false;
        }
        self.rss_level = level;
        self.schedule_if_not_scheduled();
        true
    }

    fn qos_entries(&self) -> (v: Vec<TaskQosInfo>)
        ensures
            v@ == qos_of(self.tasks()),
    {
        let mut v: Vec<TaskQosInfo> = Vec::new();
        let mut i: usize = 0;
        while i < self.tasks.len()
            invariant
                i <= self.tasks@.len(),
                v@.len() == i,
                forall|j: int| 0 <= j < i ==> v@[j] == self.tasks@[j].qos,
            decreases self.tasks@.len() - i,
        {
            v.push(self.tasks[i].qos);
            i = i + 1;
        }
        proof {
            assert(v@ =~= qos_of(self.tasks@));
        }
        v
    }

    fn front_now(&self) -> (f: Front)
        ensures
            f@ == self.front(),
    {
        let mut graced: Vec<u64> = Vec::new();
        let mut i: usize = 0;
        while i < self.graced.len()
            invariant
                i <= self.graced@.len(),
                graced@ == self.graced@.take(i as int),
            decreases self.graced@.len() - i,
        {
            graced.push(self.graced[i]);
            proof {
                assert(graced@ =~= self.graced@.take(i + 1));
            }
            i = i + 1;
        }
        proof {
            assert(self.graced@.take(i as int) =~= self.graced@);
        }
        Front { top_uid: self.top_uid, graced }
    }

    /// Chooses the running tasks anew at `time`, for the environment as it
    /// is: the tasks of either action that the priority model admits run,
    /// and no others. A task that is admitted is recorded as running; one
    /// that ran and is no longer admitted is recorded as waiting.
    #[verifier::rlimit(50)]
    pub fn reschedule(&mut self, time: u64) -> (r: QosChanges)
        requires
            old(self).wf(),
        ensures
            final(self).wf(),
            !final(self).pending(),
            final(self).network() == old(self).network(),
            final(self).top_uid() == old(self).top_uid(),
            final(self).graced() == old(self).graced(),
            final(self).rss_level() == old(self).rss_level(),
            crate::qos::ordered(r.download.order@),
            crate::qos::ordered(r.upload.order@),
            r.download.order@.to_multiset() == crate::qos::candidates(
                qos_of(old(self).tasks()),
                old(self).tasks().len() as int,
                old(self).network(),
                old(self).front(),
                Action::Download,
            ).to_multiset(),
            r.upload.order@.to_multiset() == crate::qos::candidates(
                qos_of(old(self).tasks()),
                old(self).tasks().len() as int,
                old(self).network(),
                old(self).front(),
                Action::Upload,
            ).to_multiset(),
            r.download.running@ == crate::qos::ids_at(
                r.download.order@,
                crate::qos::admitted(
                    r.download.order@,
                    r.download.order@.len() as int,
                    capacity_at(old(self).rss_level()),
                ),
            ),
            r.upload.running@ == crate::qos::ids_at(
                r.upload.order@,
                crate::qos::admitted(
                    r.upload.order@,
                    r.upload.order@.len() as int,
                    capacity_at(old(self).rss_level()),
                ),
            ),
            forall|t: u32| final(self).running().contains(t) <==> r.admits(t),
            final(self).tasks() == rescheduled_all(
                old(self).tasks(),
                r.download.running@ + r.upload.running@,
                old(self).network(),
                old(self).front(),
                time,
            ),
            final(self).events() == old(self).events() + reschedule_events(
                old(self).tasks(),
                old(self).tasks().len() as int,
                r.download.running@ + r.upload.running@,
                old(self).network(),
                old(self).front(),
                time,
            ) + start_requests(
                crate::queue::without(
                    final(self).running(),
                    final(self).running().len() as int,
                    old(self).running(),
                ),
            ) + cancel_requests(
                crate::queue::without(
                    old(self).running(),
                    old(self).running().len() as int,
                    r.download.running@ + r.upload.running@,
                ),
            ),
    {
        self.resort_scheduled = false;
        let entries = self.qos_entries();
        let caps = capacity_for_level(self.rss_level);
        let front = self.front_now();
        let download = reschedule_action(&entries, &self.network, &front, &caps, Action::Download);
        let upload = reschedule_action(&entries, &self.network, &front, &caps, Action::Upload);
        let mut admit_list: Vec<u32> = Vec::new();
        let mut i: usize = 0;
        while i < download.running.len()
            invariant
                i <= download.running@.len(),
                admit_list@ == download.running@.take(i as int),
            decreases download.running@.len() - i,
        {
            admit_list.push(download.running[i]);
            proof {
                assert(download.running@.take(i + 1) =~= download.running@.take(i as int).push(
                    download.running@[i as int],
                ));
            }
            i = i + 1;
        }
        proof {
            assert(download.running@.take(i as int) =~= download.running@);
        }
        let mut k: usize = 0;
        while k < upload.running.len()
            invariant
                k <= upload.running@.len(),
                admit_list@ == download.running@ + upload.running@.take(k as int),
            decreases upload.running@.len() - k,
        {
            admit_list.push(upload.running[k]);
            proof {
                assert(download.running@ + upload.running@.take(k + 1) =~= (download.running@
                    + upload.running@.take(k as int)).push(upload.running@[k as int]));
            }
            k = k + 1;
        }
        proof {
            assert(upload.running@.take(k as int) =~= upload.running@);
        }
        let ghost list = admit_list@;
        let ghost before = self.tasks@;
        let ghost net = self.network;
        let ghost top = front@;
        proof {
            assert forall|t: u32| list.contains(t) <==> (download.running@.contains(t)
                || upload.running@.contains(t)) by {
                if download.running@.contains(t) {
                    let a = choose|a: int|
                        0 <= a < download.running@.len() && download.running@[a] == t;
                    assert(list[a] == t);
                }
                if upload.running@.contains(t) {
                    let a = choose|a: int|
                        0 <= a < upload.running@.len() && upload.running@[a] == t;
                    assert(list[download.running@.len() + a] == t);
                }
                if list.contains(t) {
                    let a = choose|a: int| 0 <= a < list.len() && list[a] == t;
                    if a < download.running@.len() {
                        assert(download.running@[a] == t);
                    } else {
                        assert(upload.running@[a - download.running@.len()] == t);
                    }
                }
            }
        }
        let changes = self.queue.reschedule(&admit_list);
        apply_reschedule(
            &mut self.tasks,
            &mut self.events,
            &admit_list,
            self.network,
            &front,
            time,
        );
        push_engine_events(&mut self.events, &changes.start, &changes.cancel);
        proof {
            let after = self.tasks@;
            assert(after =~= rescheduled_all(before, list, self.network, front@, time));
            assert forall|x: int| 0 <= x < before.len() implies (#[trigger] after[x]).qos.task_id
                == before[x].qos.task_id by {}
            lemma_same_ids(before, after, 0);
            assert forall|q: int| 0 <= q < self.queue@.len() implies match entry_of(
                after,
                #[trigger] self.queue@[q],
            ) {
                Some(e) => e.qos.state.spec_is_schedulable(),
                None => false,
            } by {
                let t = self.queue@[q];
                assert(self.queue@.contains(t));
                assert(list.contains(t));
                let c = choose|c: int| 0 <= c < list.len() && list[c] == t;
                let action = if c < download.running@.len() {
                    Action::Download
                } else {
                    Action::Upload
                };
                if c < download.running@.len() {
                    assert(download.running@[c] == t);
                    assert(is_candidate_id(entries@, download.running@[c], net, top, action));
                } else {
                    assert(upload.running@[c - download.running@.len()] == t);
                    assert(is_candidate_id(
                        entries@,
                        upload.running@[c - download.running@.len()],
                        net,
                        top,
                        action,
                    ));
                }
                let x = choose|x: int|
                    0 <= x < entries@.len() && (#[trigger] entries@[x]).task_id == t
                        && entries@[x].action == action && eligible(entries@[x], net, top);
                assert(entries@[x] == before[x].qos);
                lemma_index_of_unique(before, x);
                lemma_same_ids(before, after, t);
                assert(after[x] == rescheduled(before[x], true, self.network, front@, time));
            }
        }
        let r = QosChanges { download, upload };
        proof {
            assert forall|t: u32| self.running().contains(t) <==> r.admits(t) by {
                assert(self.queue@.contains(t) <==> list.contains(t));
                assert(list.contains(t) <==> (r.download.running@.contains(t)
                    || r.upload.running@.contains(t)));
            }
        }
        r
    }
}

/// What is asked for when the running tasks among the first `n` entries
/// that have lived too long are stopped: of each, that subscribers are
/// told and that its transfer is cancelled.
pub open spec fn timeout_events(tasks: Seq<TaskEntry>, n: int, running: Seq<u32>, now: u64) -> Seq<
    SchedulerEvent,
>
    decreases n,
{
    if n <= 0 {
        Seq::empty()
    } else {
        let e = tasks[n - 1];
        let before = timeout_events(tasks, n - 1, running, now);
        if running.contains(e.qos.task_id) && timed_out(e.qos.ctime, now) {
            events_after(before, e.qos.task_id, State::Stopped, Reason::TaskSurvivalOneMonth, true)
        } else {
            before
        }
    }
}

/// How many of the first `n` entries are running tasks that have lived
/// too long at `now`.
pub open spec fn timed_out_count(tasks: Seq<TaskEntry>, n: int, running: Seq<u32>, now: u64) -> int
    decreases n,
{
    if n <= 0 {
        0
    } else {
        timed_out_count(tasks, n - 1, running, now) + if running.contains(tasks[n - 1].qos.task_id)
            && timed_out(tasks[n - 1].qos.ctime, now) {
            1int
        } else {
            0int
        }
    }
}

/// An entry after the running tasks that have lived too long were
/// stopped at `now`.
pub open spec fn timeout_cleared(e: TaskEntry, runs: bool, now: u64) -> TaskEntry {
    if runs && timed_out(e.qos.ctime, now) {
        entry_after(e, State::Stopped, Reason::TaskSurvivalOneMonth, now)
    } else {
        e
    }
}

impl Scheduler {
    /// Stops every running task that has lived for more than a month at
    /// `now`, and asks for a new choice of the running tasks if there was
    /// one. Returns how many were stopped.
    #[verifier::rlimit(50)]
    pub fn clear_timeout_tasks(&mut self, now: u64) -> (stopped: usize)
        requires
            old(self).wf(),
        ensures
            final(self).wf(),
            final(self).tasks().len() == old(self).tasks().len(),
            forall|x: int|
                0 <= x < old(self).tasks().len() ==> (#[trigger] final(self).tasks()[x])
                    == timeout_cleared(
                    old(self).tasks()[x],
                    old(self).running().contains(old(self).tasks()[x].qos.task_id),
                    now,
                ),
            forall|t: u32| final(self).running().contains(t) ==> old(self).running().contains(t),
            stopped == timed_out_count(
                old(self).tasks(),
                old(self).tasks().len() as int,
                old(self).running(),
                now,
            ),
            timed_out_count(
                old(self).tasks(),
                old(self).tasks().len() as int,
                old(self).running(),
                now,
            ) > 0 ==> final(self).pending() && final(self).events() == schedule_asked(
                old(self).events() + timeout_events(
                    old(self).tasks(),
                    old(self).tasks().len() as int,
                    old(self).running(),
                    now,
                ),
                old(self).pending(),
            ),
            timed_out_count(
                old(self).tasks(),
                old(self).tasks().len() as int,
                old(self).running(),
                now,
            ) == 0 ==> final(self).pending() == old(self).pending() && final(self).events()
                == old(self).events(),
            final(self).network() == old(self).network(),
            final(self).top_uid() == old(self).top_uid(),
            final(self).rss_level() == old(self).rss_level(),
            final(self).graced() == old(self).graced(),
    {
        let ghost before = self.tasks@;
        let ghost running0 = self.queue@;
        let ghost events0 = self.events@;
        proof {
            assert(self.events@ =~= events0 + timeout_events(before, 0, running0, now));
        }
        let n = self.tasks.len();
        let mut stopped: usize = 0;
        let mut i: usize = 0;
        while i < n
            invariant
                i <= n,
                stopped <= i,
                n == before.len(),
                self.wf(),
                distinct_ids(before),
                self.tasks@.len() == n,
                forall|x: int|
                    0 <= x < i ==> (#[trigger] self.tasks@[x]) == timeout_cleared(
                        before[x],
                        running0.contains(before[x].qos.task_id),
                        now,
                    ),
                forall|x: int| i <= x < n ==> (#[trigger] self.tasks@[x]) == before[x],
                forall|t: u32| self.queue@.contains(t) ==> running0.contains(t),
                forall|x: int|
                    i <= x < n && running0.contains((#[trigger] before[x]).qos.task_id)
                        ==> self.queue@.contains(before[x].qos.task_id),
                self.resort_scheduled == old(self).resort_scheduled,
                self.events@ == events0 + timeout_events(before, i as int, running0, now),
                stopped == timed_out_count(before, i as int, running0, now),
                stopped == 0 ==> timeout_events(before, i as int, running0, now).len() == 0,
                self.network == old(self).network,
                self.top_uid == old(self).top_uid,
                self.rss_level == old(self).rss_level,
                self.graced@ == old(self).graced@,
            decreases n - i,
        {
            let e = self.tasks[i];
            let ghost mid = self.tasks@;
            let ghost mid_events = self.events@;
            proof {
                assert(e == before[i as int]);
                assert(self.queue@.contains(e.qos.task_id) == running0.contains(e.qos.task_id));
            }
            if self.queue.contains(e.qos.task_id) && is_timed_out(e.qos.ctime, now) {
                self.transition(i, State::Stopped, Reason::TaskSurvivalOneMonth, now);
                stopped = stopped + 1;
                proof {
                    assert forall|x: int|
                        i < x < n && running0.contains(
                            (#[trigger] before[x]).qos.task_id,
                        ) implies self.queue@.contains(before[x].qos.task_id) by {
                        assert(before[x].qos.task_id != before[i as int].qos.task_id);
                    }
                }
            }
            proof {
                assert forall|x: int| 0 <= x < i + 1 implies (#[trigger] self.tasks@[x])
                    == timeout_cleared(
                    before[x],
                    running0.contains(before[x].qos.task_id),
                    now,
                ) by {
                    if x < i {
                        assert(mid[x] == timeout_cleared(
                            before[x],
                            running0.contains(before[x].qos.task_id),
                            now,
                        ));
                    } else {
                        assert(mid[x] == before[x]);
                    }
                }
                assert forall|x: int| i + 1 <= x < n implies (#[trigger] self.tasks@[x])
                    == before[x] by {
                    assert(mid[x] == before[x]);
                }
                let prev = timeout_events(before, i as int, running0, now);
                if running0.contains(e.qos.task_id) && timed_out(e.qos.ctime, now) {
                    assert(self.events@ == events_after(
                        mid_events,
                        e.qos.task_id,
                        State::Stopped,
                        Reason::TaskSurvivalOneMonth,
                        true,
                    ));
                    assert(self.events@ =~= events0 + events_after(
                        prev,
                        e.qos.task_id,
                        State::Stopped,
                        Reason::TaskSurvivalOneMonth,
                        true,
                    ));
                }
            }
            i = i + 1;
        }
        if stopped > 0 {
            self.schedule_if_not_scheduled();
        }
        stopped
    }
}

/// How long an application may be out of the front before its foreground
/// tasks are taken from it, in seconds.
pub const BACKGROUND_TASK_STOP_INTERVAL: u64 = 60;

/// Whether the grace of an application that left the front is over: the
/// application is still not in front, and the task is a foreground task of
/// it that is started.
pub open spec fn loses_foreground(e: TaskEntry, uid: u64, top_uid: u64) -> bool {
    e.qos.uid == uid && uid != top_uid && e.qos.mode == Mode::FrontEnd && (e.qos.state
        == State::Waiting || e.qos.state == State::Running || e.qos.state == State::Retrying)
}

/// The state that a task goes to when it loses the foreground.
pub open spec fn demoted_state(action: Action) -> State {
    if action == Action::Upload {
        State::Failed
    } else {
        State::Paused
    }
}

/// What is asked for when the foreground tasks among the first `n` entries
/// are taken from application `uid`: of each, that subscribers are told,
/// and that its transfer is cancelled if it ran.
pub open spec fn background_events(
    tasks: Seq<TaskEntry>,
    n: int,
    uid: u64,
    top_uid: u64,
    running: Seq<u32>,
) -> Seq<SchedulerEvent>
    decreases n,
{
    if n <= 0 {
        Seq::empty()
    } else {
        let e = tasks[n - 1];
        let before = background_events(tasks, n - 1, uid, top_uid, running);
        if loses_foreground(e, uid, top_uid) {
            events_after(
                before,
                e.qos.task_id,
                demoted_state(e.qos.action),
                Reason::AppBackgroundOrTerminate,
                running.contains(e.qos.task_id),
            )
        } else {
            before
        }
    }
}

/// How many of the first `n` entries are tasks that lose the foreground.
pub open spec fn lost_count(tasks: Seq<TaskEntry>, n: int, uid: u64, top_uid: u64) -> int
    decreases n,
{
    if n <= 0 {
        0
    } else {
        lost_count(tasks, n - 1, uid, top_uid) + if loses_foreground(tasks[n - 1], uid, top_uid) {
            1int
        } else {
            0int
        }
    }
}

/// An entry after the grace of application `uid` is over at `time`: a
/// download that loses the foreground is paused, an upload fails.
pub open spec fn after_background_timeout(e: TaskEntry, uid: u64, top_uid: u64, time: u64) -> TaskEntry {
    if loses_foreground(e, uid, top_uid) {
        if e.qos.action == Action::Upload {
            entry_after(e, State::Failed, Reason::AppBackgroundOrTerminate, time)
        } else {
            entry_after(e, State::Paused, Reason::AppBackgroundOrTerminate, time)
        }
    } else {
        e
    }
}

impl Scheduler {
    /// Takes the foreground tasks from application `uid`, whose grace is
    /// over at `time`, unless it is in front again. Returns how many tasks
    /// changed.
    #[verifier::rlimit(50)]
    pub fn on_background_timeout(&mut self, uid: u64, time: u64) -> (changed: usize)
        requires
            old(self).wf(),
        ensures
            final(self).wf(),
            final(self).tasks().len() == old(self).tasks().len(),
            forall|x: int|
                0 <= x < old(self).tasks().len() ==> (#[trigger] final(self).tasks()[x])
                    == after_background_timeout(
                    old(self).tasks()[x],
                    uid,
                    old(self).top_uid(),
                    time,
                ),
            forall|t: u32| final(self).running().contains(t) ==> old(self).running().contains(t),
            changed == lost_count(
                old(self).tasks(),
                old(self).tasks().len() as int,
                uid,
                old(self).top_uid(),
            ),
            lost_count(
                old(self).tasks(),
                old(self).tasks().len() as int,
                uid,
                old(self).top_uid(),
            ) > 0 ==> final(self).pending() && final(self).events() == schedule_asked(
                old(self).events() + background_events(
                    old(self).tasks(),
                    old(self).tasks().len() as int,
                    uid,
                    old(self).top_uid(),
                    old(self).running(),
                ),
                old(self).pending(),
            ),
            lost_count(
                old(self).tasks(),
                old(self).tasks().len() as int,
                uid,
                old(self).top_uid(),
            ) == 0 ==> final(self).pending() == old(self).pending() && final(self).events()
                == old(self).events(),
            final(self).network() == old(self).network(),
            final(self).top_uid() == old(self).top_uid(),
            final(self).rss_level() == old(self).rss_level(),
            final(self).graced() == removed_uid(old(self).graced(), old(self).graced().len() as int, uid),
    {
        let ghost before = self.tasks@;
        let ghost running0 = self.queue@;
        let ghost events0 = self.events@;
        proof {
            assert(self.events@ =~= events0 + background_events(before, 0, uid, self.top_uid, running0));
        }
        let n = self.tasks.len();
        let top = self.top_uid;
        let mut changed: usize = 0;
        let mut i: usize = 0;
        while i < n
            invariant
                i <= n,
                changed <= i,
                n == before.len(),
                self.wf(),
                self.tasks@.len() == n,
                top == old(self).top_uid,
                forall|x: int|
                    0 <= x < i ==> (#[trigger] self.tasks@[x]) == after_background_timeout(
                        before[x],
                        uid,
                        top,
                        time,
                    ),
                forall|x: int| i <= x < n ==> (#[trigger] self.tasks@[x]) == before[x],
                forall|t: u32| self.queue@.contains(t) ==> old(self).queue@.contains(t),
                running0 == old(self).queue@,
                distinct_ids(before),
                forall|x: int|
                    i <= x < n && running0.contains((#[trigger] before[x]).qos.task_id)
                        ==> self.queue@.contains(before[x].qos.task_id),
                self.events@ == events0 + background_events(before, i as int, uid, top, running0),
                changed == lost_count(before, i as int, uid, top),
                changed == 0 ==> background_events(before, i as int, uid, top, running0).len()
                    == 0,
                self.resort_scheduled == old(self).resort_scheduled,
                self.network == old(self).network,
                self.top_uid == old(self).top_uid,
                self.rss_level == old(self).rss_level,
                self.graced@ == old(self).graced@,
            decreases n - i,
        {
            let e = self.tasks[i];
            let ghost mid = self.tasks@;
            let ghost mid_events = self.events@;
            proof {
                assert(e == before[i as int]);
                assert(self.queue@.contains(e.qos.task_id) == running0.contains(e.qos.task_id));
            }
            if e.qos.uid == uid && uid != top && e.qos.mode == Mode::FrontEnd && (e.qos.state
                == State::Waiting || e.qos.state == State::Running || e.qos.state
                == State::Retrying) {
                if e.qos.action == Action::Upload {
                    self.transition(i, State::Failed, Reason::AppBackgroundOrTerminate, time);
                } else {
                    self.transition(i, State::Paused, Reason::AppBackgroundOrTerminate, time);
                }
                changed = changed + 1;
                proof {
                    assert forall|x: int|
                        i < x < n && running0.contains(
                            (#[trigger] before[x]).qos.task_id,
                        ) implies self.queue@.contains(before[x].qos.task_id) by {
                        assert(before[x].qos.task_id != before[i as int].qos.task_id);
                    }
                    let prev = background_events(before, i as int, uid, top, running0);
                    assert(self.events@ == events_after(
                        mid_events,
                        e.qos.task_id,
                        demoted_state(e.qos.action),
                        Reason::AppBackgroundOrTerminate,
                        running0.contains(e.qos.task_id),
                    ));
                    assert(self.events@ =~= events0 + events_after(
                        prev,
                        e.qos.task_id,
                        demoted_state(e.qos.action),
                        Reason::AppBackgroundOrTerminate,
                        running0.contains(e.qos.task_id),
                    ));
                }
            }
            proof {
                assert forall|x: int| 0 <= x < i + 1 implies (#[trigger] self.tasks@[x])
                    == after_background_timeout(before[x], uid, top, time) by {
                    if x < i {
                        assert(mid[x] == after_background_timeout(before[x], uid, top, time));
                    } else {
                        assert(mid[x] == before[x]);
                    }
                }
                assert forall|x: int| i + 1 <= x < n implies (#[trigger] self.tasks@[x])
                    == before[x] by {
                    assert(mid[x] == before[x]);
                }
            }
            i = i + 1;
        }
        self.graced = remove_uid(&self.graced, uid);
        if changed > 0 {
            self.schedule_if_not_scheduled();
        }
        changed
    }
}

/// What is done when the transfer of a task was cancelled.
#[derive(Clone, Copy, PartialEq, Eq, Structural, Debug)]
pub enum CancelOutcome {
    /// Nothing is recorded of the task: its progress notification is
    /// taken down.
    Unknown,
    /// The task was still meant to run: it runs again if it is admitted,
    /// and waits for a place else.
    Restarted(bool),
    /// The task failed: subscribers are told, and the failure is
    /// reported.
    Failed(Reason),
    /// The task was stopped or removed: its progress notification is taken
    /// down.
    Dropped,
    /// The task is in another state: nothing is done.
    Idle,
}

/// What is done when the transfer of a task was cancelled, given what is
/// recorded of the task and whether it is still admitted.
pub open spec fn cancel_outcome(entry: Option<TaskEntry>, admitted: bool) -> CancelOutcome {
    match entry {
        None => CancelOutcome::Unknown,
        Some(e) => match e.qos.state {
            State::Running | State::Retrying => CancelOutcome::Restarted(admitted),
            State::Failed => CancelOutcome::Failed(e.reason),
            State::Stopped | State::Removed => CancelOutcome::Dropped,
            _ => CancelOutcome::Idle,
        },
    }
}

impl Scheduler {
    /// Settles the cancellation of the transfer of task `id` at `time`.
    /// The task leaves the running ones. A task that was still meant to
    /// run goes back among them if `admitted` says that it has a place,
    /// and is recorded as waiting for one else.
    #[verifier::rlimit(50)]
    pub fn task_cancel(&mut self, id: u32, admitted: bool, time: u64) -> (r: CancelOutcome)
        requires
            old(self).wf(),
        ensures
            final(self).wf(),
            r == cancel_outcome(old(self).task(id), admitted),
            final(self).tasks().len() == old(self).tasks().len(),
            forall|other: u32|
                other != id ==> (#[trigger] entry_of(final(self).tasks(), other)) == entry_of(
                    old(self).tasks(),
                    other,
                ),
            forall|t: u32|
                t != id ==> (final(self).running().contains(t) <==> old(self).running().contains(
                    t,
                )),
            final(self).running().contains(id) == (r == CancelOutcome::Restarted(true)),
            final(self).events() == (if r == CancelOutcome::Restarted(false) {
                events_after(
                    old(self).events(),
                    id,
                    State::Waiting,
                    Reason::RunningTaskMeetLimits,
                    false,
                )
            } else {
                old(self).events()
            }),
            final(self).pending() == old(self).pending(),
            final(self).task(id) == (if r == CancelOutcome::Restarted(false) {
                Some(
                    entry_after(
                        old(self).task(id).unwrap(),
                        State::Waiting,
                        Reason::RunningTaskMeetLimits,
                        time,
                    ),
                )
            } else {
                old(self).task(id)
            }),
    {
        let ghost running_before = self.queue@;
        let _ = self.queue.task_finish(id);
        proof {
            assert forall|k: int| 0 <= k < self.queue@.len() implies match entry_of(
                self.tasks@,
                #[trigger] self.queue@[k],
            ) {
                Some(e) => e.qos.state.spec_is_schedulable(),
                None => false,
            } by {
                let t = self.queue@[k];
                assert(self.queue@.contains(t));
                assert(running_before.contains(t));
                let j = choose|j: int| 0 <= j < running_before.len() && running_before[j] == t;
                assert(running_before[j] == t);
            }
        }
        let i = match self.find(id) {
            Some(i) => i,
            None => {
                return CancelOutcome::Unknown;
            },
        };
        proof {
            lemma_index_of(self.tasks@, id);
        }
        let e = self.tasks[i];
        match e.qos.state {
            State::Running | State::Retrying => {
                if admitted {
                    let ghost mid = self.queue@;
                    let restarted = self.queue.try_restart(id, true);
                    proof {
                        assert(self.queue@ == mid.push(id));
                        assert(self.queue@[mid.len() as int] == id);
                        assert forall|a: int, b: int|
                            0 <= a < b < self.queue@.len() implies self.queue@[a]
                            != self.queue@[b] by {
                            if b == mid.len() {
                                assert(mid[a] == self.queue@[a]);
                                assert(mid.contains(mid[a]));
                            }
                        }
                        assert forall|k: int| 0 <= k < self.queue@.len() implies match entry_of(
                            self.tasks@,
                            #[trigger] self.queue@[k],
                        ) {
                            Some(e) => e.qos.state.spec_is_schedulable(),
                            None => false,
                        } by {
                            if k < mid.len() {
                                assert(self.queue@[k] == mid[k]);
                            }
                        }
                        assert forall|t: u32| t != id implies (self.queue@.contains(t)
                            <==> running_before.contains(t)) by {
                            if self.queue@.contains(t) {
                                let k = choose|k: int|
                                    0 <= k < self.queue@.len() && self.queue@[k] == t;
                                assert(mid[k] == t);
                            }
                            if mid.contains(t) {
                                let k = choose|k: int| 0 <= k < mid.len() && mid[k] == t;
                                assert(self.queue@[k] == t);
                            }
                        }
                    }
                } else {
                    self.transition(i, State::Waiting, Reason::RunningTaskMeetLimits, time);
                }
                CancelOutcome::Restarted(admitted)
            },
            State::Failed => CancelOutcome::Failed(e.reason),
            State::Stopped | State::Removed => CancelOutcome::Dropped,
            _ => CancelOutcome::Idle,
        }
    }
}

/// What is reported of a task that failed: how many files it has, how
/// many of them failed, which are the current one and all behind it, and
/// how many succeeded.
pub struct FaultReport {
    pub action: &'static str,
    pub total_files: usize,
    pub failed_files: usize,
    pub succeeded_files: usize,
    pub reason: u8,
}

/// Makes the report of a task that failed at file `index` of `files`.
pub fn sys_event(action: Action, files: usize, index: usize, reason: Reason) -> (r: FaultReport)
    ensures
        r.total_files == files,
        r.succeeded_files == (if index <= files {
            index
        } else {
            files
        }),
        r.failed_files == files - r.succeeded_files,
        r.reason == reason.spec_repr(),
        r.action@ == (match action {
            Action::Download => "DOWNLOAD"@,
            Action::Upload => "UPLOAD"@,
            Action::Any => "UNKNOWN"@,
        }),
{
    let done = if index <= files {
        index
    } else {
        files
    };
    FaultReport {
        action: match action {
            Action::Download => "DOWNLOAD",
            Action::Upload => "UPLOAD",
            Action::Any => "UNKNOWN",
        },
        total_files: files,
        failed_files: files - done,
        succeeded_files: done,
        reason: reason.repr(),
    }
}

/// A command on a task that is not recorded says that the task is not
/// found, whatever the command.
pub proof fn lemma_missing_task(to: State)
    ensures
        start_outcome(None) == Err::<(), ErrorCode>(ErrorCode::TaskNotFound),
        forall|top_uid: u64|
            #[trigger] resume_outcome(None, top_uid) == Err::<(), ErrorCode>(
                ErrorCode::TaskNotFound,
            ),
        change_outcome(None, to) == Err::<(), ErrorCode>(ErrorCode::TaskNotFound),
{
}

/// Only a paused task is resumed: for a task in any other state the
/// command is refused.
pub proof fn lemma_resume_needs_pause(e: TaskEntry, top_uid: u64)
    requires
        e.qos.state != State::Paused,
    ensures
        resume_outcome(Some(e), top_uid) == Err::<(), ErrorCode>(ErrorCode::TaskStateErr),
{
}

/// A foreground task whose application is not in front is not resumed;
/// once the application is in front again, it is.
pub proof fn lemma_resume_needs_foreground(e: TaskEntry, top_uid: u64)
    requires
        e.qos.state == State::Paused,
        e.qos.mode == Mode::FrontEnd,
    ensures
        e.qos.uid != top_uid ==> resume_outcome(Some(e), top_uid) == Err::<(), ErrorCode>(
            ErrorCode::TaskStateErr,
        ),
        resume_outcome(Some(e), e.qos.uid).is_ok(),
{
}

/// Pausing a task that was just paused is refused, and removing a task that
/// was just removed says that the task is not found.
pub proof fn lemma_repeated_command(e: TaskEntry, reason: Reason, time: u64)
    ensures
        change_outcome(Some(entry_after(e, State::Paused, reason, time)), State::Paused) == Err::<
            (),
            ErrorCode,
        >(ErrorCode::TaskStateErr),
        change_outcome(Some(entry_after(e, State::Removed, reason, time)), State::Removed)
            == Err::<(), ErrorCode>(ErrorCode::TaskNotFound),
{
}

/// A task without a file is not accepted.
pub proof fn lemma_no_files(tasks: Seq<TaskEntry>, new: NewTask)
    requires
        new.files == 0,
    ensures
        construct_outcome(tasks, new) == Err::<u32, ErrorCode>(ErrorCode::FileOperationErr),
{
}

/// A task that is started with nothing left to transfer is completed at
/// once.
pub proof fn lemma_start_finished(e: TaskEntry, network: NetworkState, front: FrontView, time: u64)
    requires
        e.finished,
    ensures
        started_entry(e, network, front, time).qos.state == State::Completed,
        started_entry(e, network, front, time).reason == Reason::Default,
{
}

/// Every change of state that a command or a new choice of the running
/// tasks records is one that the table allows.
pub proof fn lemma_changes_follow_table(
    e: TaskEntry,
    to: State,
    admitted: bool,
    network: NetworkState,
    top_uid: u64,
    front: FrontView,
    time: u64,
)
    ensures
        change_outcome(Some(e), to).is_ok() ==> State::spec_check_change(e.qos.state, to),
        start_outcome(Some(e)).is_ok() ==> State::spec_check_change(e.qos.state, State::Waiting),
        resume_outcome(Some(e), top_uid).is_ok() ==> State::spec_check_change(
            e.qos.state,
            State::Waiting,
        ),
        (admitted ==> e.qos.state.spec_is_schedulable()) && rescheduled(
            e,
            admitted,
            network,
            front,
            time,
        ).qos.state != e.qos.state ==> State::spec_check_change(
            e.qos.state,
            rescheduled(e, admitted, network, front, time).qos.state,
        ),
        State::spec_check_change(State::Waiting, State::Running),
        State::spec_check_change(State::Running, State::Completed),
{
}

/// A task that is paused, stopped, completed, failed or removed does not
/// run: no such task is among the running ones of a scheduler.
pub proof fn lemma_idle_tasks_do_not_run(tasks: Seq<TaskEntry>, running: Seq<u32>, k: int)
    requires
        0 <= k < running.len(),
        forall|q: int|
            0 <= q < running.len() ==> match entry_of(tasks, #[trigger] running[q]) {
                Some(e) => e.qos.state.spec_is_schedulable(),
                None => false,
            },
    ensures
        entry_of(tasks, running[k]).is_some(),
        entry_of(tasks, running[k]).unwrap().qos.state != State::Paused,
        !entry_of(tasks, running[k]).unwrap().qos.state.spec_is_terminal(),
{
    let e = entry_of(tasks, running[k]);
    assert(match e {
        Some(e) => e.qos.state.spec_is_schedulable(),
        None => false,
    });
}

/// Adding an entry with a new id changes what is found for that id only.
#[verifier::rlimit(50)]
pub proof fn lemma_push_entry(tasks: Seq<TaskEntry>, e: TaskEntry, other: u32)
    requires
        entry_of(tasks, e.qos.task_id).is_none(),
    ensures
        entry_of(tasks.push(e), e.qos.task_id) == Some(e),
        other != e.qos.task_id ==> entry_of(tasks.push(e), other) == entry_of(tasks, other),
{
    let t = tasks.push(e);
    lemma_index_of(tasks, e.qos.task_id);
    lemma_index_of(t, e.qos.task_id);
    let p = index_of(t, e.qos.task_id);
    if p < tasks.len() {
        assert(t[p] == tasks[p]);
        assert(tasks[p].qos.task_id != e.qos.task_id);
    }
    assert(t[tasks.len() as int].qos.task_id == e.qos.task_id);
    if other != e.qos.task_id {
        lemma_index_of(tasks, other);
        lemma_index_of(t, other);
        let a = index_of(tasks, other);
        let b = index_of(t, other);
        if a < tasks.len() {
            assert(t[a] == tasks[a]);
            if b < a {
                assert(t[b] == tasks[b]);
                assert(tasks[b].qos.task_id != other);
            }
            if b > a {
                assert(t[a].qos.task_id != other);
            }
        } else {
            if b < tasks.len() {
                assert(t[b] == tasks[b]);
                assert(tasks[b].qos.task_id != other);
            }
        }
    }
}

} // verus!
