//! Which client process is told of which task, and which events of a batch
//! are sent.

use crate::client::ClientEvent;
use crate::error::ErrorCode;
use crate::notify::SubscribeType;
use std::collections::{HashMap, HashSet};
use vstd::prelude::*;

verus! {

/// The subscriptions: the processes that have a channel, and for each task
/// the process that subscribed to it.
pub struct ClientManager {
    clients: HashSet<u64>,
    pid_map: HashMap<u32, u64>,
}

impl ClientManager {
    /// The processes that have a channel.
    pub closed spec fn clients(&self) -> Set<u64> {
        self.clients@
    }

    /// For each task that is subscribed to, the subscriber.
    pub closed spec fn subscriptions(&self) -> Map<u32, u64> {
        self.pid_map@
    }

    /// The process that events of task `tid` go to: the subscriber, if it
    /// still has a channel.
    pub open spec fn spec_route(&self, tid: u32) -> Option<u64> {
        if self.subscriptions().contains_key(tid) && self.clients().contains(
            self.subscriptions()[tid],
        ) {
            Some(self.subscriptions()[tid])
        } else {
            None
        }
    }

    /// No channels and no subscriptions.
    pub fn new() -> (m: ClientManager)
        ensures
            m.clients() == Set::<u64>::empty(),
            m.subscriptions() == Map::<u32, u64>::empty(),
    {
        ClientManager { clients: HashSet::new(), pid_map: HashMap::new() }
    }

    /// Whether process `pid` has a channel.
    pub fn has_channel(&self, pid: u64) -> (b: bool)
        ensures
            b == self.clients().contains(pid),
    {
        broadcast use vstd::std_specs::hash::group_hash_axioms;

        self.clients.contains(&pid)
    }

    /// Settles a request of process `pid` for a channel: one that exists
    /// is handed out again; else `opened` says whether a new one could be
    /// made, and the process has a channel from then on if it could.
    /// Returns whether there is a channel to hand out.
    pub fn handle_open_channel(&mut self, pid: u64, opened: bool) -> (r: Result<(), ErrorCode>)
        ensures
            final(self).subscriptions() == old(self).subscriptions(),
            old(self).clients().contains(pid) ==> r.is_ok() && final(self).clients() == old(self).clients(),
            !old(self).clients().contains(pid) && opened ==> r.is_ok() && final(self).clients()
                == old(self).clients().insert(pid),
            !old(self).clients().contains(pid) && !opened ==> r == Err::<(), ErrorCode>(
                ErrorCode::Other,
            ) && final(self).clients() == old(self).clients(),
    {
        broadcast use vstd::std_specs::hash::group_hash_axioms;

        if self.clients.contains(&pid) {
            Ok(())
        } else if opened {
            self.clients.insert(pid);
            Ok(())
        } else {
            Err(ErrorCode::Other)
        }
    }

    /// Subscribes process `pid` to task `tid`, in place of any subscriber
    /// before. The process must have a channel.
    pub fn handle_subscribe(&mut self, tid: u32, pid: u64) -> (r: ErrorCode)
        ensures
            final(self).clients() == old(self).clients(),
            old(self).clients().contains(pid) ==> r == ErrorCode::ErrOk && final(self).subscriptions() == old(self).subscriptions().insert(tid, pid),
            !old(self).clients().contains(pid) ==> r == ErrorCode::ChannelNotOpen && final(self).subscriptions() == old(self).subscriptions(),
    {
        broadcast use vstd::std_specs::hash::group_hash_axioms;

        if self.clients.contains(&pid) {
            self.pid_map.insert(tid, pid);
            ErrorCode::ErrOk
        } else {
            ErrorCode::ChannelNotOpen
        }
    }

    /// Ends the subscription to task `tid`. Succeeds where there was one
    /// and the subscriber still has a channel.
    pub fn handle_unsubscribe(&mut self, tid: u32) -> (r: ErrorCode)
        ensures
            final(self).clients() == old(self).clients(),
            final(self).subscriptions() == old(self).subscriptions().remove(tid),
            r == (if old(self).spec_route(tid).is_some() {
                ErrorCode::ErrOk
            } else {
                ErrorCode::Other
            }),
    {
        broadcast use vstd::std_specs::hash::group_hash_axioms;

        match self.pid_map.remove(&tid) {
            Some(pid) => {
                if self.clients.contains(&pid) {
                    ErrorCode::ErrOk
                } else {
                    ErrorCode::Other
                }
            },
            None => {
                assert(self.pid_map@ =~= old(self).pid_map@.remove(tid));
                ErrorCode::Other
            },
        }
    }

    /// Ends the subscription to a task that is over.
    pub fn handle_task_finished(&mut self, tid: u32)
        ensures
            final(self).clients() == old(self).clients(),
            final(self).subscriptions() == old(self).subscriptions().remove(tid),
    {
        broadcast use vstd::std_specs::hash::group_hash_axioms;

        let _ = self.pid_map.remove(&tid);
    }

    /// Takes the channel of a process that ended. Returns whether it had
    /// one, which is then to be shut down.
    pub fn handle_process_terminated(&mut self, pid: u64) -> (had: bool)
        ensures
            had == old(self).clients().contains(pid),
            final(self).clients() == old(self).clients().remove(pid),
            final(self).subscriptions() == old(self).subscriptions(),
    {
        broadcast use vstd::std_specs::hash::group_hash_axioms;

        self.clients.remove(&pid)
    }

    /// The process that events of task `tid` go to.
    pub fn route(&self, tid: u32) -> (pid: Option<u64>)
        ensures
            pid == self.spec_route(tid),
    {
        broadcast use vstd::std_specs::hash::group_hash_axioms;

        match self.pid_map.get(&tid) {
            Some(pid) => {
                if self.clients.contains(pid) {
                    Some(*pid)
                } else {
                    None
                }
            },
            None => None,
        }
    }
}

/// What is to be done about an event once the manager has taken it up.
#[derive(Clone, Copy, PartialEq, Eq, Structural, Debug)]
pub enum Handled {
    /// A request was settled: the one who asked is given this result.
    Answered(ErrorCode),
    /// A process ended that had a channel: the channel is to be closed,
    /// and the one who said so is told that it is done.
    Closed(u64),
    /// The event is passed on to this process.
    Forward(u64),
    /// Nothing.
    Nothing,
}

/// The task that an event tells a process of.
pub open spec fn told_task(event: ClientEvent) -> Option<u32> {
    match event {
        ClientEvent::SendResponse(tid, _, _, _, _) => Some(tid),
        ClientEvent::SendNotifyData(_, data) => Some(data.task_id),
        ClientEvent::SendFaults(tid, _, _) => Some(tid),
        ClientEvent::SendWaitNotify(tid, _) => Some(tid),
        _ => None,
    }
}

/// The processes with a channel, the subscriptions, and what is to be
/// done, after an event was taken up. `opened` says whether a channel
/// could be made for a process that asks for one and has none. An event
/// that tells of a task is passed on to the subscriber of the task, or
/// dropped where there is none with a channel.
pub open spec fn handled(
    clients: Set<u64>,
    subscriptions: Map<u32, u64>,
    event: ClientEvent,
    opened: bool,
) -> (Set<u64>, Map<u32, u64>, Handled) {
    match event {
        ClientEvent::OpenChannel(pid) => if clients.contains(pid) {
            (clients, subscriptions, Handled::Answered(ErrorCode::ErrOk))
        } else if opened {
            (clients.insert(pid), subscriptions, Handled::Answered(ErrorCode::ErrOk))
        } else {
            (clients, subscriptions, Handled::Answered(ErrorCode::Other))
        },
        ClientEvent::Subscribe(tid, pid, _, _) => if clients.contains(pid) {
            (clients, subscriptions.insert(tid, pid), Handled::Answered(ErrorCode::ErrOk))
        } else {
            (clients, subscriptions, Handled::Answered(ErrorCode::ChannelNotOpen))
        },
        ClientEvent::Unsubscribe(tid) => (
            clients,
            subscriptions.remove(tid),
            Handled::Answered(
                if subscriptions.contains_key(tid) && clients.contains(subscriptions[tid]) {
                    ErrorCode::ErrOk
                } else {
                    ErrorCode::Other
                },
            ),
        ),
        ClientEvent::TaskFinished(tid) => (clients, subscriptions.remove(tid), Handled::Nothing),
        ClientEvent::Terminate(pid) => (
            clients.remove(pid),
            subscriptions,
            if clients.contains(pid) {
                Handled::Closed(pid)
            } else {
                Handled::Answered(ErrorCode::ErrOk)
            },
        ),
        ClientEvent::Shutdown => (clients, subscriptions, Handled::Nothing),
        _ => (
            clients,
            subscriptions,
            match told_task(event) {
                Some(tid) => if subscriptions.contains_key(tid) && clients.contains(
                    subscriptions[tid],
                ) {
                    Handled::Forward(subscriptions[tid])
                } else {
                    Handled::Nothing
                },
                None => Handled::Nothing,
            },
        ),
    }
}

impl ClientManager {
    /// Takes up one event.
    pub fn run(&mut self, event: &ClientEvent, opened: bool) -> (r: Handled)
        ensures
            (final(self).clients(), final(self).subscriptions(), r) == handled(
                old(self).clients(),
                old(self).subscriptions(),
                *event,
                opened,
            ),
    {
        match event {
            ClientEvent::OpenChannel(pid) => {
                match self.handle_open_channel(*pid, opened) {
                    Ok(()) => Handled::Answered(ErrorCode::ErrOk),
                    Err(code) => Handled::Answered(code),
                }
            },
            ClientEvent::Subscribe(tid, pid, _, _) => Handled::Answered(
                self.handle_subscribe(*tid, *pid),
            ),
            ClientEvent::Unsubscribe(tid) => Handled::Answered(self.handle_unsubscribe(*tid)),
            ClientEvent::TaskFinished(tid) => {
                self.handle_task_finished(*tid);
                Handled::Nothing
            },
            ClientEvent::Terminate(pid) => {
                if self.handle_process_terminated(*pid) {
                    Handled::Closed(*pid)
                } else {
                    Handled::Answered(ErrorCode::ErrOk)
                }
            },
            ClientEvent::SendResponse(tid, _, _, _, _) => self.pass_on(*tid),
            ClientEvent::SendNotifyData(_, data) => self.pass_on(data.task_id),
            ClientEvent::SendFaults(tid, _, _) => self.pass_on(*tid),
            ClientEvent::SendWaitNotify(tid, _) => self.pass_on(*tid),
            ClientEvent::Shutdown => Handled::Nothing,
        }
    }

    fn pass_on(&self, tid: u32) -> (r: Handled)
        ensures
            r == (match self.spec_route(tid) {
                Some(pid) => Handled::Forward(pid),
                None => Handled::Nothing,
            }),
    {
        match self.route(tid) {
            Some(pid) => Handled::Forward(pid),
            None => Handled::Nothing,
        }
    }
}

/// No event of a task reaches a process before it subscribed: with no
/// subscription there is no route, and right after one the route leads to
/// the subscriber.
pub proof fn lemma_route_after_subscribe(
    clients: Set<u64>,
    subscriptions: Map<u32, u64>,
    tid: u32,
    pid: u64,
)
    requires
        clients.contains(pid),
    ensures
        subscriptions.insert(tid, pid).contains_key(tid),
        subscriptions.insert(tid, pid)[tid] == pid,
        !subscriptions.remove(tid).contains_key(tid),
{
}

/// One event of a batch: its kind and its task.
pub struct EventKey {
    pub kind: SubscribeType,
    pub task_id: u32,
}

/// The position of the last progress event of task `tid` among the first
/// `n` events.
pub open spec fn last_progress(events: Seq<EventKey>, n: int, tid: u32) -> Option<int>
    decreases n,
{
    if n <= 0 {
        None
    } else if events[n - 1].kind == SubscribeType::Progress && events[n - 1].task_id == tid {
        Some(n - 1)
    } else {
        last_progress(events, n - 1, tid)
    }
}

/// Whether the event at position `i` is sent: every event but a progress
/// event is, and of the progress events of a task the last of the batch.
pub open spec fn is_sent(events: Seq<EventKey>, i: int) -> bool {
    events[i].kind != SubscribeType::Progress || last_progress(
        events,
        events.len() as int,
        events[i].task_id,
    ) == Some(i)
}

/// The positions among the first `n` of the events that are sent, in
/// order.
pub open spec fn sent_positions(events: Seq<EventKey>, n: int) -> Seq<usize>
    decreases n,
{
    if n <= 0 {
        Seq::empty()
    } else if is_sent(events, n - 1) {
        sent_positions(events, n - 1).push((n - 1) as usize)
    } else {
        sent_positions(events, n - 1)
    }
}

proof fn lemma_last_progress_range(events: Seq<EventKey>, n: int, tid: u32)
    requires
        0 <= n <= events.len(),
    ensures
        match last_progress(events, n, tid) {
            Some(i) => 0 <= i < n && events[i].kind == SubscribeType::Progress
                && events[i].task_id == tid && forall|j: int|
                i < j < n ==> !(events[j].kind == SubscribeType::Progress && events[j].task_id
                    == tid),
            None => forall|j: int|
                0 <= j < n ==> !(events[j].kind == SubscribeType::Progress && events[j].task_id
                    == tid),
        },
    decreases n,
{
    if n > 0 {
        lemma_last_progress_range(events, n - 1, tid);
    }
}

spec fn tracks(last: Map<u32, usize>, events: Seq<EventKey>, n: int, tid: u32) -> bool {
    match last_progress(events, n, tid) {
        Some(p) => last.contains_key(tid) && last[tid] == p,
        None => !last.contains_key(tid),
    }
}

/// Picks the events of a batch that are sent: all but the progress events
/// that a later progress event of the same task overtakes.
#[verifier::rlimit(50)]
pub fn coalesce_progress(events: &Vec<EventKey>) -> (kept: Vec<usize>)
    ensures
        kept@ == sent_positions(events@, events@.len() as int),
{
    broadcast use vstd::std_specs::hash::group_hash_axioms;

    let mut last: HashMap<u32, usize> = HashMap::new();
    let mut i: usize = 0;
    while i < events.len()
        invariant
            i <= events@.len(),
            forall|tid: u32| #[trigger] tracks(last@, events@, i as int, tid),
        decreases events@.len() - i,
    {
        let ghost before = last@;
        if events[i].kind == SubscribeType::Progress {
            last.insert(events[i].task_id, i);
        }
        proof {
            assert forall|tid: u32| #[trigger] tracks(last@, events@, i + 1, tid) by {
                assert(tracks(before, events@, i as int, tid));
            }
        }
        i = i + 1;
    }
    let mut kept: Vec<usize> = Vec::new();
    let mut k: usize = 0;
    while k < events.len()
        invariant
            k <= events@.len(),
            forall|tid: u32| #[trigger] tracks(last@, events@, events@.len() as int, tid),
            kept@ == sent_positions(events@, k as int),
        decreases events@.len() - k,
    {
        let e = &events[k];
        let send = if e.kind == SubscribeType::Progress {
            match last.get(&e.task_id) {
                Some(p) => *p == k,
                None => false,
            }
        } else {
            true
        };
        proof {
            let tid = e.task_id;
            assert(tracks(last@, events@, events@.len() as int, tid));
            lemma_last_progress_range(events@, events@.len() as int, tid);
            assert(send == is_sent(events@, k as int));
        }
        if send {
            kept.push(k);
        }
        k = k + 1;
    }
    kept
}

/// What a process receives of a batch is the batch in its order, less the
/// progress events that were overtaken: the positions sent rise, and a
/// position is sent exactly if its event is to be sent, so that every
/// event that is no progress event is sent.
#[verifier::rlimit(50)]
pub proof fn lemma_coalesce(events: Seq<EventKey>, n: int)
    requires
        0 <= n <= events.len() <= usize::MAX,
    ensures
        forall|a: int, b: int|
            0 <= a < b < sent_positions(events, n).len() ==> sent_positions(events, n)[a]
                < sent_positions(events, n)[b],
        forall|a: int|
            0 <= a < sent_positions(events, n).len() ==> (#[trigger] sent_positions(
                events,
                n,
            )[a]) < n,
        forall|i: int|
            0 <= i < n ==> (sent_positions(events, n).contains(i as usize) <==> #[trigger] is_sent(
                events,
                i,
            )),
    decreases n,
{
    if n > 0 {
        lemma_coalesce(events, n - 1);
        let prev = sent_positions(events, n - 1);
        let cur = sent_positions(events, n);
        let top = (n - 1) as usize;
        if is_sent(events, n - 1) {
            assert(cur == prev.push(top));
            assert forall|a: int, b: int| 0 <= a < b < cur.len() implies cur[a] < cur[b] by {
                if b == cur.len() - 1 {
                    assert(cur[a] == prev[a]);
                    assert(prev[a] < n - 1);
                } else {
                    assert(cur[a] == prev[a] && cur[b] == prev[b]);
                }
            }
            assert forall|a: int| 0 <= a < cur.len() implies (#[trigger] cur[a]) < n by {
                if a < prev.len() {
                    assert(cur[a] == prev[a]);
                    assert(prev[a] < n - 1);
                }
            }
        } else {
            assert(cur == prev);
            assert forall|a: int| 0 <= a < cur.len() implies (#[trigger] cur[a]) < n by {
                assert(prev[a] < n - 1);
            }
        }
        assert forall|i: int| 0 <= i < n implies (cur.contains(i as usize) <==> #[trigger] is_sent(
            events,
            i,
        )) by {
            if i == n - 1 {
                if is_sent(events, n - 1) {
                    assert(cur[cur.len() - 1] == top);
                } else {
                    if cur.contains(top) {
                        let a = choose|a: int| 0 <= a < cur.len() && cur[a] == top;
                        assert(prev[a] < n - 1);
                    }
                }
            } else {
                assert(prev.contains(i as usize) <==> is_sent(events, i));
                if prev.contains(i as usize) {
                    let a = choose|a: int| 0 <= a < prev.len() && prev[a] == i as usize;
                    assert(cur[a] == i as usize);
                }
                if cur.contains(i as usize) {
                    let a = choose|a: int| 0 <= a < cur.len() && cur[a] == i as usize;
                    if a < prev.len() {
                        assert(prev[a] == i as usize);
                    } else {
                        assert(cur[a] == top);
                    }
                }
            }
        }
    }
}

/// Of the progress events of one task at most one is sent, and it is the
/// last of the batch.
pub proof fn lemma_one_progress_per_task(events: Seq<EventKey>, i: int, j: int)
    requires
        0 <= i < j < events.len(),
        events[i].kind == SubscribeType::Progress,
        events[j].kind == SubscribeType::Progress,
        events[i].task_id == events[j].task_id,
    ensures
        !is_sent(events, i),
{
    lemma_last_progress_range(events, events.len() as int, events[i].task_id);
}

} // verus!
