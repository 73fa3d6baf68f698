//! The counts and the verdicts of the task manager.

use crate::config::{Action, Mode, Version};
use crate::error::ErrorCode;
use crate::info::State;
use crate::queue::{timed_out, MILLISECONDS_IN_ONE_MONTH};
use crate::reason::Reason;
use vstd::prelude::*;

verus! {

/// The most background tasks of the current version that there may be.
pub const MAX_TASK_COUNT: u32 = 300;

/// The most such tasks that one application may have.
pub const MAX_TASK_COUNT_EACH_APP: usize = 10;

/// The most such tasks of one application that may run.
pub const MAX_RUNNING_TASK_COUNT_EACH_APP: usize = 5;

/// The counts that the task manager keeps, and what it knows of the
/// application in front.
pub struct TaskManager {
    total_task_count: u32,
    api10_background_task_count: u32,
    front_app_uid: Option<u64>,
    event_callback: bool,
    unloading: bool,
}

/// What becomes of a running task when the network goes away: under the
/// legacy version a download waits and an upload fails; under the current
/// version a task waits if it runs in the background with retries
/// allowed, and fails else.
pub open spec fn offline_verdict(version: Version, action: Action, mode: Mode, retry: bool) -> State {
    match version {
        Version::API9 => if action == Action::Download {
            State::Waiting
        } else {
            State::Failed
        },
        Version::API10 => if mode == Mode::FrontEnd || !retry {
            State::Failed
        } else {
            State::Waiting
        },
    }
}

/// What a change of the network means for a task.
#[derive(Clone, Copy, PartialEq, Eq, Structural, Debug)]
pub enum NetworkVerdict {
    /// The task stays as it is.
    Keep,
    /// The task goes to this state, for want of a network, and its
    /// transfer is cancelled.
    Offline(State),
    /// The task, which waited, is started again.
    Restart,
}

/// What a change of the network means for a task: when the network goes
/// away, a task that runs waits or fails; when it is there, a task that
/// waits is started again if the network fits it.
pub open spec fn network_verdict(
    online: bool,
    state: State,
    satisfied: bool,
    version: Version,
    action: Action,
    mode: Mode,
    retry: bool,
) -> NetworkVerdict {
    if !online {
        if state == State::Retrying || state == State::Running {
            NetworkVerdict::Offline(offline_verdict(version, action, mode, retry))
        } else {
            NetworkVerdict::Keep
        }
    } else if state == State::Waiting && satisfied {
        NetworkVerdict::Restart
    } else {
        NetworkVerdict::Keep
    }
}

pub fn net_work_change_verdict(
    online: bool,
    state: State,
    satisfied: bool,
    version: Version,
    action: Action,
    mode: Mode,
    retry: bool,
) -> (v: NetworkVerdict)
    ensures
        v == network_verdict(online, state, satisfied, version, action, mode, retry),
{
    if !online {
        if state != State::Retrying && state != State::Running {
            return NetworkVerdict::Keep;
        }
        let to = match version {
            Version::API9 => {
                if action == Action::Download {
                    State::Waiting
                } else {
                    State::Failed
                }
            },
            Version::API10 => {
                if mode == Mode::FrontEnd || !retry {
                    State::Failed
                } else {
                    State::Waiting
                }
            },
        };
        NetworkVerdict::Offline(to)
    } else if state == State::Waiting && satisfied {
        NetworkVerdict::Restart
    } else {
        NetworkVerdict::Keep
    }
}

/// Whether a task is stopped by the watch over the tasks at `now`: a task
/// of the current version that has lived for more than a month is.
pub open spec fn monitor_stops(version: Version, ctime: u64, now: u64) -> bool {
    version == Version::API10 && timed_out(ctime, now)
}

pub fn monitor_task(version: Version, ctime: u64, now: u64) -> (r: Option<Reason>)
    ensures
        r == (if monitor_stops(version, ctime, now) {
            Some(Reason::TaskSurvivalOneMonth)
        } else {
            None
        }),
{
    if version == Version::API10 && now >= ctime && now - ctime > MILLISECONDS_IN_ONE_MONTH {
        Some(Reason::TaskSurvivalOneMonth)
    } else {
        None
    }
}

/// Whether a task is taken from the memory of the manager: once it is
/// completed, failed, removed or stopped.
pub fn remove_task_from_map(state: State) -> (b: bool)
    ensures
        b == state.spec_is_terminal(),
{
    state.is_terminal()
}

/// Whether an event of a task is passed on to the application in front:
/// not a progress event before anything is known of the transfer, not an
/// event of an application that is not in front if it is a progress event
/// or the task is of the current version.
pub open spec fn front_notify_passes(
    has_callback: bool,
    total_processed: usize,
    file_total_size: int,
    is_progress: bool,
    is_front_app: bool,
    version: Version,
) -> bool {
    has_callback && !(total_processed == 0 && file_total_size < 0 && is_progress) && !(
    !is_front_app && (version == Version::API10 || is_progress))
}

impl TaskManager {
    pub closed spec fn total(&self) -> u32 {
        self.total_task_count
    }

    pub closed spec fn background(&self) -> u32 {
        self.api10_background_task_count
    }

    pub closed spec fn front_app(&self) -> Option<u64> {
        self.front_app_uid
    }

    pub closed spec fn callback(&self) -> bool {
        self.event_callback
    }

    pub closed spec fn is_unloading(&self) -> bool {
        self.unloading
    }

    /// A manager without tasks.
    pub fn new() -> (m: TaskManager)
        ensures
            m.total() == 0,
            m.background() == 0,
            m.front_app().is_none(),
            !m.callback(),
            !m.is_unloading(),
    {
        TaskManager {
            total_task_count: 0,
            api10_background_task_count: 0,
            front_app_uid: None,
            event_callback: false,
            unloading: false,
        }
    }

    /// Forgets every task.
    pub fn clear_all_task(&mut self)
        ensures
            final(self).total() == 0,
            final(self).background() == 0,
            final(self).front_app() == old(self).front_app(),
            final(self).callback() == old(self).callback(),
            final(self).is_unloading() == old(self).is_unloading(),
    {
        self.total_task_count = 0;
        self.api10_background_task_count = 0;
    }

    pub fn get_total_task_count(&self) -> (n: u32)
        ensures
            n == self.total(),
    {
        self.total_task_count
    }

    pub fn get_api10_background_task_count(&self) -> (n: u32)
        ensures
            n == self.background(),
    {
        self.api10_background_task_count
    }

    pub fn has_event_callback(&self) -> (b: bool)
        ensures
            b == self.callback(),
    {
        self.event_callback
    }

    /// Notes that the callbacks for events are there.
    pub fn register_callback(&mut self)
        ensures
            final(self).callback(),
            final(self).total() == old(self).total(),
            final(self).background() == old(self).background(),
            final(self).front_app() == old(self).front_app(),
            final(self).is_unloading() == old(self).is_unloading(),
    {
        self.event_callback = true;
    }

    /// Whether the application is in front: the one that is known to be,
    /// or for want of that, the one whose name the platform gives as that
    /// of the application in front.
    pub fn is_front_app(&self, uid: u64, top_bundle_matches: bool) -> (b: bool)
        ensures
            b == (match self.front_app() {
                None => top_bundle_matches,
                Some(front) => uid == front,
            }),
    {
        match self.front_app_uid {
            None => top_bundle_matches,
            Some(front) => uid == front,
        }
    }

    /// Whether an event of a task is passed on to the application in
    /// front.
    pub fn front_notify(
        &self,
        is_progress: bool,
        total_processed: usize,
        sizes: &Vec<i64>,
        is_front_app: bool,
        version: Version,
    ) -> (pass: bool)
        ensures
            pass == front_notify_passes(
                self.callback(),
                total_processed,
                crate::request_task::total_size(sizes@),
                is_progress,
                is_front_app,
                version,
            ),
    {
        if !self.event_callback {
            return false;
        }
        let negative = sizes_sum_negative(sizes);
        if total_processed == 0 && negative && is_progress {
            return false;
        }
        if !is_front_app && (version == Version::API10 || is_progress) {
            return false;
        }
        true
    }

    /// Takes the news of the state of an application: one that comes to
    /// the front is the application in front; one that leaves it is no
    /// longer. Returns whether a foreground task of that application is to
    /// be stopped, which is when the application left the front.
    pub fn update_app_state(&mut self, uid: u64, foreground: bool, left: bool) -> (stop: bool)
        ensures
            final(self).front_app() == (if foreground {
                Some(uid)
            } else if left && old(self).front_app() == Some(uid) {
                None
            } else {
                old(self).front_app()
            }),
            stop == (!foreground && left),
            final(self).total() == old(self).total(),
            final(self).background() == old(self).background(),
            final(self).callback() == old(self).callback(),
    {
        if foreground {
            self.front_app_uid = Some(uid);
            false
        } else if left {
            match self.front_app_uid {
                Some(front) => {
                    if front == uid {
                        self.front_app_uid = None;
                    }
                },
                None => {},
            }
            true
        } else {
            false
        }
    }

    /// Whether a new background task of the current version is taken,
    /// given how many unfinished tasks its application has: not when the
    /// system or the application is at its limit. A task that is taken is
    /// counted.
    pub fn add_task(&mut self, app_tasks: usize) -> (taken: bool)
        ensures
            taken == (old(self).background() < MAX_TASK_COUNT && app_tasks
                != MAX_TASK_COUNT_EACH_APP),
            taken ==> final(self).background() == old(self).background() + 1 && final(self).total() == (if old(self).total() < u32::MAX {
                (old(self).total() + 1) as u32
            } else {
                u32::MAX
            }),
            !taken ==> final(self).background() == old(self).background() && final(self).total()
                == old(self).total(),
    {
        if self.api10_background_task_count >= MAX_TASK_COUNT {
            return false;
        }
        if app_tasks == MAX_TASK_COUNT_EACH_APP {
            return false;
        }
        self.api10_background_task_count = self.api10_background_task_count + 1;
        if self.total_task_count < u32::MAX {
            self.total_task_count = self.total_task_count + 1;
        }
        true
    }

    /// Whether a task may be made: it needs a file at least.
    pub fn construct_task(&self, files: usize) -> (r: ErrorCode)
        ensures
            r == (if files == 0 {
                ErrorCode::FileOperationErr
            } else {
                ErrorCode::ErrOk
            }),
    {
        if files == 0 {
            ErrorCode::FileOperationErr
        } else {
            ErrorCode::ErrOk
        }
    }

    /// Whether a background task of the current version may start to run,
    /// given how many tasks of its application run: not at the limit, in
    /// which case it waits.
    pub fn start_common(running_of_app: usize) -> (r: Result<(), Reason>)
        ensures
            r == (if running_of_app >= MAX_RUNNING_TASK_COUNT_EACH_APP {
                Err::<(), Reason>(Reason::RunningTaskMeetLimits)
            } else {
                Ok::<(), Reason>(())
            }),
    {
        if running_of_app >= MAX_RUNNING_TASK_COUNT_EACH_APP {
            Err(Reason::RunningTaskMeetLimits)
        } else {
            Ok(())
        }
    }
}

fn sizes_sum_negative(sizes: &Vec<i64>) -> (b: bool)
    ensures
        b == (crate::request_task::total_size(sizes@) < 0),
{
    let mut total: i128 = 0;
    let mut i: usize = 0;
    while i < sizes.len()
        invariant
            i <= sizes@.len(),
            total == crate::request_task::total_size(sizes@.take(i as int)),
            -(i as int) * 0x8000_0000_0000_0000 <= total <= (i as int) * 0x8000_0000_0000_0000,
        decreases sizes@.len() - i,
    {
        proof {
            assert(sizes@.take(i + 1).drop_last() =~= sizes@.take(i as int));
            assert((i as int) * 0x8000_0000_0000_0000 <= 0xffff_ffff_ffff_ffff
                * 0x8000_0000_0000_0000) by (nonlinear_arith)
                requires
                    i <= 0xffff_ffff_ffff_ffff,
            ;
            assert((i as int + 1) * 0x8000_0000_0000_0000 == (i as int) * 0x8000_0000_0000_0000
                + 0x8000_0000_0000_0000) by (nonlinear_arith);
        }
        total = total + sizes[i] as i128;
        i = i + 1;
    }
    proof {
        assert(sizes@.take(i as int) =~= sizes@);
    }
    total < 0
}

/// The state in which a task starts to run, and whether that counts as a
/// try: a task that waited for the network tries again; any other runs.
pub open spec fn start_state(state: State, reason: Reason) -> State {
    if state == State::Waiting && (reason == Reason::NetworkOffline || reason
        == Reason::UnsupportedNetworkType) {
        State::Retrying
    } else {
        State::Running
    }
}

/// The state in which a task starts to run; `None` for a task that is
/// neither new nor waiting nor paused, which does not start.
pub fn start_inner(state: State, reason: Reason) -> (r: Option<State>)
    ensures
        r == (if state == State::Initialized || state == State::Waiting || state
            == State::Paused {
            Some(start_state(state, reason))
        } else {
            None
        }),
{
    if state != State::Initialized && state != State::Waiting && state != State::Paused {
        return None;
    }
    if state == State::Waiting && (reason == Reason::NetworkOffline || reason
        == Reason::UnsupportedNetworkType) {
        Some(State::Retrying)
    } else {
        Some(State::Running)
    }
}

} // verus!
