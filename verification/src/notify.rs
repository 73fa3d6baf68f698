//! What subscribers are told about a task.

use crate::config::{Action, Version};
use crate::info::State;
use crate::progress::Progress;
use crate::reason::Reason;
use vstd::prelude::*;

verus! {

/// The kinds of events that a client can be sent.
#[derive(Clone, Copy, PartialEq, Eq, Structural, Debug)]
pub enum SubscribeType {
    Completed,
    Failed,
    HeaderReceive,
    Pause,
    Progress,
    Remove,
    Resume,
    Response,
    FaultOccur,
    Wait,
}

impl SubscribeType {
    /// The number of the kind on the wire.
    pub open spec fn spec_repr(self) -> u32 {
        match self {
            SubscribeType::Completed => 0,
            SubscribeType::Failed => 1,
            SubscribeType::HeaderReceive => 2,
            SubscribeType::Pause => 3,
            SubscribeType::Progress => 4,
            SubscribeType::Remove => 5,
            SubscribeType::Resume => 6,
            SubscribeType::Response => 7,
            SubscribeType::FaultOccur => 8,
            SubscribeType::Wait => 9,
        }
    }

    pub fn repr(self) -> (n: u32)
        ensures
            n == self.spec_repr(),
    {
        match self {
            SubscribeType::Completed => 0,
            SubscribeType::Failed => 1,
            SubscribeType::HeaderReceive => 2,
            SubscribeType::Pause => 3,
            SubscribeType::Progress => 4,
            SubscribeType::Remove => 5,
            SubscribeType::Resume => 6,
            SubscribeType::Response => 7,
            SubscribeType::FaultOccur => 8,
            SubscribeType::Wait => 9,
        }
    }
}

/// Why a task waits, as subscribers are told.
#[derive(Clone, Copy, PartialEq, Eq, Structural, Debug)]
pub enum WaitingCause {
    TaskQueue,
    Network,
    AppState,
    User,
}

impl WaitingCause {
    /// The number of the cause on the wire.
    pub open spec fn spec_repr(self) -> u32 {
        match self {
            WaitingCause::TaskQueue => 0,
            WaitingCause::Network => 1,
            WaitingCause::AppState => 2,
            WaitingCause::User => 3,
        }
    }

    pub fn repr(self) -> (n: u32)
        ensures
            n == self.spec_repr(),
    {
        match self {
            WaitingCause::TaskQueue => 0,
            WaitingCause::Network => 1,
            WaitingCause::AppState => 2,
            WaitingCause::User => 3,
        }
    }

    /// The cause that subscribers are told for the reason with which a task
    /// waits.
    pub open spec fn spec_of_reason(reason: Reason) -> WaitingCause {
        match reason {
            Reason::RunningTaskMeetLimits => WaitingCause::TaskQueue,
            Reason::NetworkOffline | Reason::UnsupportedNetworkType => WaitingCause::Network,
            Reason::AppBackgroundOrTerminate => WaitingCause::AppState,
            _ => WaitingCause::User,
        }
    }

    pub fn of_reason(reason: Reason) -> (c: WaitingCause)
        ensures
            c == WaitingCause::spec_of_reason(reason),
    {
        match reason {
            Reason::RunningTaskMeetLimits => WaitingCause::TaskQueue,
            Reason::NetworkOffline | Reason::UnsupportedNetworkType => WaitingCause::Network,
            Reason::AppBackgroundOrTerminate => WaitingCause::AppState,
            _ => WaitingCause::User,
        }
    }
}

/// The last known outcome of one file.
pub struct EachFileStatus {
    pub path: String,
    pub reason: Reason,
    pub message: String,
}

pub struct EachFileStatusView {
    pub path: Seq<char>,
    pub reason: Reason,
    pub message: Seq<char>,
}

impl View for EachFileStatus {
    type V = EachFileStatusView;

    open spec fn view(&self) -> EachFileStatusView {
        EachFileStatusView { path: self.path@, reason: self.reason, message: self.message@ }
    }
}

/// The views of a list of file outcomes.
pub open spec fn statuses_view(v: Seq<EachFileStatus>) -> Seq<EachFileStatusView> {
    Seq::new(v.len(), |i: int| v[i]@)
}

/// What an event about a task carries.
pub struct NotifyData {
    pub bundle: String,
    pub progress: Progress,
    pub action: Action,
    pub version: Version,
    pub each_file_status: Vec<EachFileStatus>,
    pub task_id: u32,
    pub uid: u64,
}

/// The kinds of events that subscribers are sent when a task is in the
/// state `state` with `total_processed` bytes processed: none for a task
/// that was only made, nor for one that runs and has nothing processed
/// yet; else the progress, and behind it the event of the state.
pub open spec fn state_events(state: State, total_processed: usize) -> Seq<SubscribeType> {
    if state == State::Initialized || (total_processed == 0 && (state == State::Running || state
        == State::Retrying)) {
        Seq::empty()
    } else {
        match state {
            State::Completed => seq![SubscribeType::Progress, SubscribeType::Completed],
            State::Failed => seq![SubscribeType::Progress, SubscribeType::Failed],
            State::Paused | State::Waiting => seq![SubscribeType::Progress, SubscribeType::Pause],
            State::Removed => seq![SubscribeType::Progress, SubscribeType::Remove],
            _ => seq![SubscribeType::Progress],
        }
    }
}

/// The kinds of events that subscribers are sent for a state.
pub fn state_change_notify(state: State, total_processed: usize) -> (v: Vec<SubscribeType>)
    ensures
        v@ == state_events(state, total_processed),
{
    let mut v: Vec<SubscribeType> = Vec::new();
    if state == State::Initialized || (total_processed == 0 && (state == State::Running || state
        == State::Retrying)) {
        return v;
    }
    v.push(SubscribeType::Progress);
    match state {
        State::Completed => {
            v.push(SubscribeType::Completed);
        },
        State::Failed => {
            v.push(SubscribeType::Failed);
        },
        State::Paused | State::Waiting => {
            v.push(SubscribeType::Pause);
        },
        State::Removed => {
            v.push(SubscribeType::Remove);
        },
        _ => {},
    }
    v
}

/// Whether the end of a task is published to the platform: when it is
/// completed or failed.
pub fn publishes_state(state: State) -> (b: bool)
    ensures
        b == (state == State::Completed || state == State::Failed),
{
    state == State::Completed || state == State::Failed
}

/// Whether the receipt of the header is told to subscribers: only for an
/// upload under the legacy version.
pub fn notify_header_receive(version: Version, action: Action) -> (b: bool)
    ensures
        b == (version == Version::API9 && action == Action::Upload),
{
    version == Version::API9 && action == Action::Upload
}

/// One thing that the subscribers of a task are told of a change of its
/// state.
#[derive(Clone, Copy, PartialEq, Eq, Structural, Debug)]
pub enum Told {
    /// An event of the task, of this kind.
    Event(SubscribeType),
    /// Why the task waits.
    Wait(WaitingCause),
    /// The fault that the task met.
    Fault(Reason),
}

/// What the subscribers of a task are told when the task comes into the
/// state `state` for the reason `reason`, with `total_processed` bytes
/// processed, in the order in which it is told: the events of the state;
/// behind them the cause of the wait for a task that waits, and the fault
/// for a task that failed.
pub open spec fn change_told(state: State, reason: Reason, total_processed: usize) -> Seq<Told> {
    let events = Seq::new(
        state_events(state, total_processed).len(),
        |i: int| Told::Event(state_events(state, total_processed)[i]),
    );
    if state == State::Waiting {
        events.push(Told::Wait(WaitingCause::spec_of_reason(reason)))
    } else if state == State::Failed {
        events.push(Told::Fault(reason))
    } else {
        events
    }
}

/// What the subscribers of a task are told of a change of its state.
pub fn tell_change(state: State, reason: Reason, total_processed: usize) -> (v: Vec<Told>)
    ensures
        v@ == change_told(state, reason, total_processed),
{
    let kinds = state_change_notify(state, total_processed);
    let mut v: Vec<Told> = Vec::new();
    let mut i: usize = 0;
    while i < kinds.len()
        invariant
            i <= kinds@.len(),
            v@.len() == i,
            forall|k: int| 0 <= k < i ==> v@[k] == Told::Event(kinds@[k]),
        decreases kinds@.len() - i,
    {
        v.push(Told::Event(kinds[i]));
        i = i + 1;
    }
    let ghost events = v@;
    if state == State::Waiting {
        v.push(Told::Wait(WaitingCause::of_reason(reason)));
    } else if state == State::Failed {
        v.push(Told::Fault(reason));
    }
    proof {
        let want = Seq::new(
            state_events(state, total_processed).len(),
            |i: int| Told::Event(state_events(state, total_processed)[i]),
        );
        assert(events =~= want);
        assert(v@ =~= change_told(state, reason, total_processed));
    }
    v
}

/// Whether the subscription to a task ends with the state: a task that is
/// over tells its subscribers nothing more.
pub fn ends_subscription(state: State) -> (b: bool)
    ensures
        b == state.spec_is_terminal(),
{
    state.is_terminal()
}

} // verus!
