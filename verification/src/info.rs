//! Task states and the transitions between them.

use crate::config::{FileSpec, FormItem};
use crate::notify::EachFileStatus;
use crate::progress::Progress;
use vstd::prelude::*;

verus! {

/// The state of a task. `Any` is the wildcard of search filters and of
/// numbers that stand for no state; no task is ever in it.
#[derive(Clone, Copy, PartialEq, Eq, Structural, Debug)]
pub enum State {
    Initialized,
    Waiting,
    Running,
    Retrying,
    Paused,
    Stopped,
    Completed,
    Failed,
    Removed,
    Any,
}

/// Whether the owning application is in front of the user.
#[derive(Clone, Copy, PartialEq, Eq, Structural, Debug)]
pub enum ApplicationState {
    Foreground,
    Background,
    Terminated,
}

impl ApplicationState {
    /// The number under which the platform reports the state.
    pub open spec fn spec_repr(self) -> u8 {
        match self {
            ApplicationState::Foreground => 2,
            ApplicationState::Background => 4,
            ApplicationState::Terminated => 5,
        }
    }

    /// Reads a reported number; 2 is foreground, 4 background, every other
    /// number terminated.
    pub open spec fn spec_from_u8(value: u8) -> ApplicationState {
        match value {
            2 => ApplicationState::Foreground,
            4 => ApplicationState::Background,
            _ => ApplicationState::Terminated,
        }
    }

    pub fn repr(self) -> (n: u8)
        ensures
            n == self.spec_repr(),
    {
        match self {
            ApplicationState::Foreground => 2,
            ApplicationState::Background => 4,
            ApplicationState::Terminated => 5,
        }
    }

    pub fn from_u8(value: u8) -> (s: ApplicationState)
        ensures
            s == ApplicationState::spec_from_u8(value),
    {
        match value {
            2 => ApplicationState::Foreground,
            4 => ApplicationState::Background,
            _ => ApplicationState::Terminated,
        }
    }
}

impl State {
    /// The number under which the state is persisted.
    pub open spec fn spec_repr(self) -> u8 {
        match self {
            State::Initialized => 0x00,
            State::Waiting => 0x10,
            State::Running => 0x20,
            State::Retrying => 0x21,
            State::Paused => 0x30,
            State::Stopped => 0x31,
            State::Completed => 0x40,
            State::Failed => 0x41,
            State::Removed => 0x50,
            State::Any => 0x61,
        }
    }

    /// The state that a persisted number stands for, `Any` if none.
    pub open spec fn spec_from_u8(value: u8) -> State {
        match value {
            0x00 => State::Initialized,
            0x10 => State::Waiting,
            0x20 => State::Running,
            0x21 => State::Retrying,
            0x30 => State::Paused,
            0x31 => State::Stopped,
            0x40 => State::Completed,
            0x41 => State::Failed,
            0x50 => State::Removed,
            _ => State::Any,
        }
    }

    /// A task in a terminal state holds no file and never runs again unless
    /// it is started anew.
    pub open spec fn spec_is_terminal(self) -> bool {
        self == State::Stopped || self == State::Completed || self == State::Failed
            || self == State::Removed
    }

    /// The states from which a task may be admitted to run.
    pub open spec fn spec_is_schedulable(self) -> bool {
        self == State::Initialized || self == State::Waiting || self == State::Running
            || self == State::Retrying
    }

    /// The transition table. A task that failed may wait again only when it
    /// downloads; that condition is the caller's to test.
    pub open spec fn spec_check_change(from: State, to: State) -> bool {
        match from {
            State::Initialized => to == State::Waiting || to == State::Running || to
                == State::Paused || to == State::Stopped || to == State::Removed || to
                == State::Failed,
            State::Waiting => to == State::Running || to == State::Retrying || to
                == State::Paused || to == State::Stopped || to == State::Removed || to
                == State::Failed,
            State::Running => to == State::Retrying || to == State::Waiting || to
                == State::Paused || to == State::Stopped || to == State::Removed || to
                == State::Completed || to == State::Failed,
            State::Retrying => to == State::Running || to == State::Waiting || to
                == State::Paused || to == State::Stopped || to == State::Removed || to
                == State::Completed || to == State::Failed,
            State::Paused => to == State::Waiting || to == State::Stopped || to
                == State::Removed,
            State::Stopped => to == State::Removed,
            State::Completed => to == State::Removed,
            State::Failed => to == State::Waiting || to == State::Removed,
            State::Removed => false,
            State::Any => false,
        }
    }

    pub fn repr(self) -> (n: u8)
        ensures
            n == self.spec_repr(),
    {
        match self {
            State::Initialized => 0x00,
            State::Waiting => 0x10,
            State::Running => 0x20,
            State::Retrying => 0x21,
            State::Paused => 0x30,
            State::Stopped => 0x31,
            State::Completed => 0x40,
            State::Failed => 0x41,
            State::Removed => 0x50,
            State::Any => 0x61,
        }
    }

    pub fn from_u8(value: u8) -> (s: State)
        ensures
            s == State::spec_from_u8(value),
    {
        match value {
            0x00 => State::Initialized,
            0x10 => State::Waiting,
            0x20 => State::Running,
            0x21 => State::Retrying,
            0x30 => State::Paused,
            0x31 => State::Stopped,
            0x40 => State::Completed,
            0x41 => State::Failed,
            0x50 => State::Removed,
            _ => State::Any,
        }
    }

    pub fn is_terminal(self) -> (b: bool)
        ensures
            b == self.spec_is_terminal(),
    {
        self == State::Stopped || self == State::Completed || self == State::Failed || self
            == State::Removed
    }

    pub fn is_schedulable(self) -> (b: bool)
        ensures
            b == self.spec_is_schedulable(),
    {
        self == State::Initialized || self == State::Waiting || self == State::Running || self
            == State::Retrying
    }

    /// Whether the table allows the transition.
    pub fn check_change(from: State, to: State) -> (b: bool)
        ensures
            b == State::spec_check_change(from, to),
    {
        match from {
            State::Initialized => to == State::Waiting || to == State::Running || to
                == State::Paused || to == State::Stopped || to == State::Removed || to
                == State::Failed,
            State::Waiting => to == State::Running || to == State::Retrying || to
                == State::Paused || to == State::Stopped || to == State::Removed || to
                == State::Failed,
            State::Running | State::Retrying => (to != from) && (to == State::Running || to
                == State::Retrying || to == State::Waiting || to == State::Paused || to
                == State::Stopped || to == State::Removed || to == State::Completed || to
                == State::Failed),
            State::Paused => to == State::Waiting || to == State::Stopped || to
                == State::Removed,
            State::Stopped => to == State::Removed,
            State::Completed => to == State::Removed,
            State::Failed => to == State::Waiting || to == State::Removed,
            State::Removed => false,
            State::Any => false,
        }
    }
}

/// A state survives being persisted as its number and read back.
pub proof fn lemma_state_round_trip(s: State)
    ensures
        State::spec_from_u8(s.spec_repr()) == s,
{
}

/// No transition leaves `Removed`, none keeps a task where it is, and none
/// leads into `Initialized`.
pub proof fn lemma_transition_shape(from: State, to: State)
    requires
        State::spec_check_change(from, to),
    ensures
        from != State::Removed,
        from != to,
        to != State::Initialized,
        to != State::Any,
{
}

/// A terminal state is left only for `Removed`, or from `Failed` for
/// `Waiting`; a state that may run is never terminal.
pub proof fn lemma_terminal_exits(from: State, to: State)
    requires
        from.spec_is_terminal(),
        State::spec_check_change(from, to),
    ensures
        to == State::Removed || (from == State::Failed && to == State::Waiting),
        !from.spec_is_schedulable(),
{
}

/// The plain values of what is shown of a task.
#[derive(Clone, Copy, Debug)]
pub struct CommonTaskInfo {
    pub task_id: u32,
    pub uid: u64,
    pub action: u8,
    pub mode: u8,
    pub ctime: u64,
    pub mtime: u64,
    pub reason: u8,
    pub gauge: bool,
    pub retry: bool,
    pub tries: u32,
    pub version: u8,
    pub priority: u32,
}

/// What is shown of a task, and what is kept of it between runs.
pub struct TaskInfo {
    pub bundle: String,
    pub url: String,
    pub data: String,
    pub token: String,
    pub form_items: Vec<FormItem>,
    pub file_specs: Vec<FileSpec>,
    pub title: String,
    pub description: String,
    pub mime_type: String,
    pub progress: Progress,
    pub each_file_status: Vec<EachFileStatus>,
    pub common_data: CommonTaskInfo,
}

} // verus!
