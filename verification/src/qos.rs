//! Which tasks may run: the order of their claims, and the caps.

use crate::config::{spec_satisfy_network, Action, Mode, NetworkConfig, NetworkState, NetworkType};
use crate::info::State;
use vstd::multiset::Multiset;
use vstd::prelude::*;

verus! {

/// What the scheduler knows of a task without loading it.
#[derive(Clone, Copy, PartialEq, Eq, Structural, Debug)]
pub struct TaskQosInfo {
    pub uid: u64,
    pub task_id: u32,
    pub action: Action,
    pub mode: Mode,
    pub state: State,
    pub priority: u32,
    pub ctime: u64,
    pub network: NetworkConfig,
    pub metered: bool,
    pub roaming: bool,
}

/// How many tasks of one action may run: in all, of one application, and
/// in all where tasks of the foreground are counted.
#[derive(Clone, Copy, PartialEq, Eq, Structural, Debug)]
pub struct QosCapacity {
    pub total: usize,
    pub per_app: usize,
    pub foreground: usize,
}

/// How many tasks one application may run at a time.
pub const PER_APP_CAP: usize = 5;

/// The highest level of memory pressure.
pub const MAX_RSS_LEVEL: i32 = 7;

/// The caps at a level of memory pressure: the more pressure, the fewer
/// tasks. A level below the scale counts as the lowest, one above as the
/// highest.
pub open spec fn capacity_at(level: i32) -> QosCapacity {
    if level <= 3 {
        QosCapacity { total: 8, per_app: PER_APP_CAP, foreground: 16 }
    } else if level <= 6 {
        QosCapacity { total: 4, per_app: PER_APP_CAP, foreground: 8 }
    } else {
        QosCapacity { total: 2, per_app: PER_APP_CAP, foreground: 4 }
    }
}

pub fn capacity_for_level(level: i32) -> (c: QosCapacity)
    ensures
        c == capacity_at(level),
{
    if level <= 3 {
        QosCapacity { total: 8, per_app: PER_APP_CAP, foreground: 16 }
    } else if level <= 6 {
        QosCapacity { total: 4, per_app: PER_APP_CAP, foreground: 8 }
    } else {
        QosCapacity { total: 2, per_app: PER_APP_CAP, foreground: 4 }
    }
}

/// More pressure never means more tasks, and the foreground cap is never
/// below the cap for all.
pub proof fn lemma_capacity_monotone(low: i32, high: i32)
    requires
        low <= high,
    ensures
        capacity_at(high).total <= capacity_at(low).total,
        capacity_at(high).foreground <= capacity_at(low).foreground,
        capacity_at(low).total <= capacity_at(low).foreground,
{
}

/// The applications that count as being in front: the one that is, and
/// those that left the front and whose time of grace has not ended.
pub struct Front {
    pub top_uid: u64,
    pub graced: Vec<u64>,
}

pub struct FrontView {
    pub top_uid: u64,
    pub graced: Seq<u64>,
}

impl View for Front {
    type V = FrontView;

    open spec fn view(&self) -> FrontView {
        FrontView { top_uid: self.top_uid, graced: self.graced@ }
    }
}

impl FrontView {
    /// Whether application `uid` counts as being in front.
    pub open spec fn holds(self, uid: u64) -> bool {
        uid == self.top_uid || self.graced.contains(uid)
    }
}

/// Whether `list` holds `x`.
pub fn holds_uid(list: &Vec<u64>, x: u64) -> (b: bool)
    ensures
        b == list@.contains(x),
{
    let mut i: usize = 0;
    while i < list.len()
        invariant
            i <= list@.len(),
            forall|j: int| 0 <= j < i ==> list@[j] != x,
        decreases list@.len() - i,
    {
        if list[i] == x {
            return true;
        }
        i = i + 1;
    }
    false
}

/// The first `n` of `list` without `x`, in order.
pub open spec fn removed_uid(list: Seq<u64>, n: int, x: u64) -> Seq<u64>
    decreases n,
{
    if n <= 0 {
        Seq::empty()
    } else if list[n - 1] == x {
        removed_uid(list, n - 1, x)
    } else {
        removed_uid(list, n - 1, x).push(list[n - 1])
    }
}

/// What is left of a list without `x` holds every other number that the
/// list holds, and not `x`.
pub proof fn lemma_removed_uid(list: Seq<u64>, n: int, x: u64, y: u64)
    requires
        0 <= n <= list.len(),
    ensures
        removed_uid(list, n, x).contains(y) <==> (y != x && exists|k: int|
            0 <= k < n && #[trigger] list[k] == y),
    decreases n,
{
    if n > 0 {
        lemma_removed_uid(list, n - 1, x, y);
        let prev = removed_uid(list, n - 1, x);
        let cur = removed_uid(list, n, x);
        if cur.contains(y) {
            let a = choose|a: int| 0 <= a < cur.len() && cur[a] == y;
            if a < prev.len() {
                assert(prev[a] == y);
                assert(prev.contains(y));
                let k = choose|k: int| 0 <= k < n - 1 && #[trigger] list[k] == y;
                assert(list[k] == y);
            } else {
                assert(list[n - 1] == y);
            }
        }
        if y != x && exists|k: int| 0 <= k < n && #[trigger] list[k] == y {
            let k = choose|k: int| 0 <= k < n && #[trigger] list[k] == y;
            if k < n - 1 {
                assert(list[k] == y);
                assert(prev.contains(y));
                let a = choose|a: int| 0 <= a < prev.len() && prev[a] == y;
                assert(cur[a] == y);
            } else {
                assert(cur[cur.len() - 1] == y);
            }
        }
    }
}

/// The list without `x`.
pub fn remove_uid(list: &Vec<u64>, x: u64) -> (r: Vec<u64>)
    ensures
        r@ == removed_uid(list@, list@.len() as int, x),
{
    let mut r: Vec<u64> = Vec::new();
    let mut i: usize = 0;
    while i < list.len()
        invariant
            i <= list@.len(),
            r@ == removed_uid(list@, i as int, x),
        decreases list@.len() - i,
    {
        if list[i] != x {
            r.push(list[i]);
        }
        i = i + 1;
    }
    r
}

/// A foreground task of an application whose time of grace has not ended
/// may run as if the application were in front.
pub proof fn lemma_grace_keeps_eligible(e: TaskQosInfo, network: NetworkState, front: FrontView)
    requires
        e.state.spec_is_schedulable(),
        spec_satisfy_network(e.network, e.metered, e.roaming, network).is_ok(),
        front.graced.contains(e.uid),
    ensures
        eligible(e, network, front),
{
}

/// Whether a task may run in the environment: its state allows it, the
/// network meets its constraint, and a foreground task belongs to an
/// application that counts as being in front: the one that is, or one
/// whose time of grace has not ended.
pub open spec fn eligible(e: TaskQosInfo, network: NetworkState, front: FrontView) -> bool {
    &&& e.state.spec_is_schedulable()
    &&& spec_satisfy_network(e.network, e.metered, e.roaming, network).is_ok()
    &&& (e.mode == Mode::FrontEnd ==> front.holds(e.uid))
}

pub fn is_eligible(e: &TaskQosInfo, network: &NetworkState, front: &Front) -> (b: bool)
    ensures
        b == eligible(*e, *network, front@),
{
    if !e.state.is_schedulable() {
        return false;
    }
    let network_ok = match network {
        NetworkState::Offline => false,
        NetworkState::Online(info) => {
            if e.network == NetworkConfig::Any {
                true
            } else if e.network == NetworkConfig::Wifi && info.network_type
                == NetworkType::Cellular {
                false
            } else {
                (e.roaming || !info.is_roaming) && (e.metered || !info.is_metered)
            }
        },
    };
    network_ok && (e.mode != Mode::FrontEnd || e.uid == front.top_uid || holds_uid(
        &front.graced,
        e.uid,
    ))
}

/// Whether the claim of `a` comes before that of `b`: foreground before
/// background, then the lower priority number, then the older task, then
/// the lower id.
pub open spec fn precedes(a: TaskQosInfo, b: TaskQosInfo) -> bool {
    let ra = a.mode.spec_to_usize();
    let rb = b.mode.spec_to_usize();
    ra < rb || (ra == rb && (a.priority < b.priority || (a.priority == b.priority && (a.ctime
        < b.ctime || (a.ctime == b.ctime && a.task_id < b.task_id)))))
}

/// Whether the claims of `a` and `b` are the same.
pub open spec fn same_claim(a: TaskQosInfo, b: TaskQosInfo) -> bool {
    a.mode.spec_to_usize() == b.mode.spec_to_usize() && a.priority == b.priority && a.ctime
        == b.ctime && a.task_id == b.task_id
}

/// Whether `a` may stand before `b`.
pub open spec fn in_order(a: TaskQosInfo, b: TaskQosInfo) -> bool {
    precedes(a, b) || same_claim(a, b)
}

pub fn comes_before(a: &TaskQosInfo, b: &TaskQosInfo) -> (r: bool)
    ensures
        r == precedes(*a, *b),
{
    let ra = a.mode.to_usize();
    let rb = b.mode.to_usize();
    ra < rb || (ra == rb && (a.priority < b.priority || (a.priority == b.priority && (a.ctime
        < b.ctime || (a.ctime == b.ctime && a.task_id < b.task_id)))))
}

/// The order of claims is strict and total: of two tasks with different
/// ids exactly one comes first, and the order runs through.
pub proof fn lemma_precedes_order(a: TaskQosInfo, b: TaskQosInfo, c: TaskQosInfo)
    ensures
        !precedes(a, a),
        !(precedes(a, b) && precedes(b, a)),
        precedes(a, b) && precedes(b, c) ==> precedes(a, c),
        a.task_id != b.task_id ==> precedes(a, b) || precedes(b, a),
        in_order(a, b) && in_order(b, c) ==> in_order(a, c),
        in_order(a, b) || in_order(b, a),
{
}

/// Every entry of `s` may stand before all that follow it.
pub open spec fn ordered(s: Seq<TaskQosInfo>) -> bool {
    forall|i: int, j: int| 0 <= i < j < s.len() ==> in_order(#[trigger] s[i], #[trigger] s[j])
}

/// The entries among the first `n` that may run and have the action, in
/// the order in which they stand.
pub open spec fn candidates(
    entries: Seq<TaskQosInfo>,
    n: int,
    network: NetworkState,
    front: FrontView,
    action: Action,
) -> Seq<TaskQosInfo>
    decreases n,
{
    if n <= 0 {
        Seq::empty()
    } else if entries[n - 1].action == action && eligible(entries[n - 1], network, front) {
        candidates(entries, n - 1, network, front, action).push(entries[n - 1])
    } else {
        candidates(entries, n - 1, network, front, action)
    }
}

/// Every candidate is one of the entries, may run and has the action.
pub proof fn lemma_candidates_member(
    entries: Seq<TaskQosInfo>,
    n: int,
    network: NetworkState,
    front: FrontView,
    action: Action,
    e: TaskQosInfo,
)
    requires
        0 <= n <= entries.len(),
        candidates(entries, n, network, front, action).contains(e),
    ensures
        e.action == action,
        eligible(e, network, front),
        exists|j: int| 0 <= j < n && #[trigger] entries[j] == e,
    decreases n,
{
    if n > 0 {
        let prev = candidates(entries, n - 1, network, front, action);
        let cur = candidates(entries, n, network, front, action);
        let a = choose|a: int| 0 <= a < cur.len() && cur[a] == e;
        if a < prev.len() && (cur == prev || cur == prev.push(entries[n - 1])) {
            assert(prev[a] == e);
            lemma_candidates_member(entries, n - 1, network, front, action, e);
            let j = choose|j: int| 0 <= j < n - 1 && #[trigger] entries[j] == e;
            assert(entries[j] == e);
        } else {
            assert(entries[n - 1] == e);
        }
    }
}

/// Picks the entries that may run and have the action.
pub fn collect_candidates(
    entries: &Vec<TaskQosInfo>,
    network: &NetworkState,
    front: &Front,
    action: Action,
) -> (v: Vec<TaskQosInfo>)
    ensures
        v@ == candidates(entries@, entries@.len() as int, *network, front@, action),
{
    let mut v: Vec<TaskQosInfo> = Vec::new();
    let mut i: usize = 0;
    while i < entries.len()
        invariant
            i <= entries@.len(),
            v@ == candidates(entries@, i as int, *network, front@, action),
        decreases entries@.len() - i,
    {
        let e = entries[i];
        if e.action == action && is_eligible(&e, network, front) {
            v.push(e);
        }
        i = i + 1;
    }
    v
}

/// Puts the entries in the order of their claims.
#[verifier::rlimit(50)]
pub fn sort_by_claim(entries: &Vec<TaskQosInfo>) -> (v: Vec<TaskQosInfo>)
    ensures
        ordered(v@),
        v@.to_multiset() == entries@.to_multiset(),
        v@.len() == entries@.len(),
{
    broadcast use vstd::seq_lib::group_to_multiset_ensures;

    let mut v: Vec<TaskQosInfo> = Vec::new();
    let mut i: usize = 0;
    proof {
        assert(entries@.take(0) =~= Seq::empty());
    }
    while i < entries.len()
        invariant
            i <= entries@.len(),
            ordered(v@),
            v@.len() == i,
            v@.to_multiset() == entries@.take(i as int).to_multiset(),
        decreases entries@.len() - i,
    {
        let e = entries[i];
        let mut at: usize = 0;
        while at < v.len() && !comes_before(&e, &v[at])
            invariant
                at <= v@.len(),
                ordered(v@),
                forall|j: int| 0 <= j < at ==> in_order(#[trigger] v@[j], e),
            decreases v@.len() - at,
        {
            proof {
                lemma_precedes_order(e, v@[at as int], e);
            }
            at = at + 1;
        }
        let ghost before = v@;
        v.insert(at, e);
        proof {
            vstd::seq_lib::to_multiset_insert(before, at as int, e);
            assert(entries@.take(i + 1) =~= entries@.take(i as int).push(e));
            vstd::seq_lib::to_multiset_build(entries@.take(i as int), e);
            assert forall|a: int, b: int| 0 <= a < b < v@.len() implies in_order(
                #[trigger] v@[a],
                #[trigger] v@[b],
            ) by {
                if b < at {
                    assert(v@[a] == before[a] && v@[b] == before[b]);
                } else if b == at {
                    assert(v@[a] == before[a]);
                } else if a == at {
                    assert(v@[b] == before[b - 1]);
                    if at < before.len() {
                        assert(precedes(e, before[at as int]));
                        if b - 1 > at {
                            assert(in_order(before[at as int], before[b - 1]));
                        }
                        lemma_precedes_order(e, before[at as int], before[b - 1]);
                    }
                } else if a < at {
                    assert(v@[a] == before[a] && v@[b] == before[b - 1]);
                } else {
                    assert(v@[a] == before[a - 1] && v@[b] == before[b - 1]);
                }
            }
        }
        i = i + 1;
    }
    proof {
        assert(entries@.take(i as int) =~= entries@);
    }
    v
}

/// How many of the entries at the positions `chosen` belong to `uid`.
pub open spec fn count_of_app(entries: Seq<TaskQosInfo>, chosen: Seq<usize>, uid: u64) -> int
    decreases chosen.len(),
{
    if chosen.len() == 0 {
        0
    } else {
        count_of_app(entries, chosen.drop_last(), uid) + (if entries[chosen.last() as int].uid
            == uid {
            1int
        } else {
            0int
        })
    }
}

/// Whether the entry `e` is admitted when the entries at `chosen` are: its
/// application must have a place left, and so must the queue, where a
/// foreground task may take a place above the cap for all.
pub open spec fn admits(
    entries: Seq<TaskQosInfo>,
    chosen: Seq<usize>,
    e: TaskQosInfo,
    caps: QosCapacity,
) -> bool {
    count_of_app(entries, chosen, e.uid) < caps.per_app && (chosen.len() < caps.total || (e.mode
        == Mode::FrontEnd && chosen.len() < caps.foreground))
}

/// The positions among the first `n` entries that are admitted, going
/// through the entries in their order.
pub open spec fn admitted(entries: Seq<TaskQosInfo>, n: int, caps: QosCapacity) -> Seq<usize>
    decreases n,
{
    if n <= 0 {
        Seq::empty()
    } else {
        let before = admitted(entries, n - 1, caps);
        if admits(entries, before, entries[n - 1], caps) {
            before.push((n - 1) as usize)
        } else {
            before
        }
    }
}

/// The ids of the entries at the positions `chosen`.
pub open spec fn ids_at(entries: Seq<TaskQosInfo>, chosen: Seq<usize>) -> Seq<u32> {
    Seq::new(chosen.len(), |i: int| entries[chosen[i] as int].task_id)
}

fn count_app(entries: &Vec<TaskQosInfo>, chosen: &Vec<usize>, uid: u64) -> (n: usize)
    requires
        forall|i: int| 0 <= i < chosen@.len() ==> (#[trigger] chosen@[i]) < entries@.len(),
    ensures
        n == count_of_app(entries@, chosen@, uid),
        n <= chosen@.len(),
{
    let mut n: usize = 0;
    let mut i: usize = 0;
    proof {
        assert(chosen@.take(0) =~= Seq::empty());
    }
    while i < chosen.len()
        invariant
            i <= chosen@.len(),
            n <= i,
            forall|k: int| 0 <= k < chosen@.len() ==> (#[trigger] chosen@[k]) < entries@.len(),
            n == count_of_app(entries@, chosen@.take(i as int), uid),
        decreases chosen@.len() - i,
    {
        proof {
            assert(chosen@.take(i + 1).drop_last() =~= chosen@.take(i as int));
        }
        if entries[chosen[i]].uid == uid {
            n = n + 1;
        }
        i = i + 1;
    }
    proof {
        assert(chosen@.take(i as int) =~= chosen@);
    }
    n
}

/// Admits entries in their order, as far as the caps allow. Returns the
/// positions of those admitted.
pub fn admit_in_order(entries: &Vec<TaskQosInfo>, caps: &QosCapacity) -> (chosen: Vec<usize>)
    ensures
        chosen@ == admitted(entries@, entries@.len() as int, *caps),
        forall|i: int| 0 <= i < chosen@.len() ==> (#[trigger] chosen@[i]) < entries@.len(),
{
    let mut chosen: Vec<usize> = Vec::new();
    let mut i: usize = 0;
    while i < entries.len()
        invariant
            i <= entries@.len(),
            chosen@ == admitted(entries@, i as int, *caps),
            forall|k: int| 0 <= k < chosen@.len() ==> (#[trigger] chosen@[k]) < i,
        decreases entries@.len() - i,
    {
        let e = entries[i];
        let of_app = count_app(entries, &chosen, e.uid);
        if of_app < caps.per_app && (chosen.len() < caps.total || (e.mode == Mode::FrontEnd
            && chosen.len() < caps.foreground)) {
            chosen.push(i);
        }
        i = i + 1;
    }
    chosen
}

/// Whether `id` is the id of an entry that may run and has the action.
pub open spec fn is_candidate_id(
    entries: Seq<TaskQosInfo>,
    id: u32,
    network: NetworkState,
    front: FrontView,
    action: Action,
) -> bool {
    exists|j: int|
        0 <= j < entries.len() && (#[trigger] entries[j]).task_id == id && entries[j].action
            == action && eligible(entries[j], network, front)
}

/// The tasks that may run, for one action: the entries that may run in the
/// order of their claims, and the ids of those that are admitted.
pub struct Admission {
    pub order: Vec<TaskQosInfo>,
    pub running: Vec<u32>,
}

/// Computes the tasks of one action that should be running.
#[verifier::rlimit(50)]
pub fn reschedule_action(
    entries: &Vec<TaskQosInfo>,
    network: &NetworkState,
    front: &Front,
    caps: &QosCapacity,
    action: Action,
) -> (a: Admission)
    ensures
        ordered(a.order@),
        a.order@.to_multiset() == candidates(
            entries@,
            entries@.len() as int,
            *network,
            front@,
            action,
        ).to_multiset(),
        a.running@ == ids_at(a.order@, admitted(a.order@, a.order@.len() as int, *caps)),
        forall|k: int|
            0 <= k < a.running@.len() ==> is_candidate_id(
                entries@,
                #[trigger] a.running@[k],
                *network,
                front@,
                action,
            ),
{
    let picked = collect_candidates(entries, network, front, action);
    let order = sort_by_claim(&picked);
    let chosen = admit_in_order(&order, caps);
    let mut running: Vec<u32> = Vec::new();
    let mut i: usize = 0;
    while i < chosen.len()
        invariant
            i <= chosen@.len(),
            running@.len() == i,
            forall|k: int| 0 <= k < chosen@.len() ==> (#[trigger] chosen@[k]) < order@.len(),
            forall|k: int| 0 <= k < i ==> running@[k] == order@[chosen@[k] as int].task_id,
        decreases chosen@.len() - i,
    {
        running.push(order[chosen[i]].task_id);
        i = i + 1;
    }
    let a = Admission { order, running };
    proof {
        broadcast use vstd::seq_lib::group_to_multiset_ensures;

        assert(a.running@ =~= ids_at(a.order@, chosen@));
        assert forall|k: int| 0 <= k < a.running@.len() implies is_candidate_id(
            entries@,
            #[trigger] a.running@[k],
            *network,
            front@,
            action,
        ) by {
            let e = a.order@[chosen@[k] as int];
            assert(a.order@.contains(e));
            assert(a.order@.to_multiset().count(e) > 0);
            assert(picked@.to_multiset().count(e) > 0);
            assert(picked@.contains(e));
            lemma_candidates_member(
                entries@,
                entries@.len() as int,
                *network,
                front@,
                action,
                e,
            );
            let j = choose|j: int| 0 <= j < entries@.len() && #[trigger] entries@[j] == e;
            assert(entries@[j].task_id == a.running@[k]);
        }
    }
    a
}

/// What admission guarantees: the positions admitted rise, never more are
/// admitted than the foreground cap, never more without the foreground
/// than the cap for all, and never more of one application than its cap.
#[verifier::rlimit(50)]
pub proof fn lemma_admitted_caps(entries: Seq<TaskQosInfo>, n: int, caps: QosCapacity, uid: u64)
    requires
        0 <= n <= entries.len() <= usize::MAX,
        caps.total <= caps.foreground,
    ensures
        admitted(entries, n, caps).len() <= caps.foreground,
        admitted(entries, n, caps).len() <= n,
        count_of_app(entries, admitted(entries, n, caps), uid) <= caps.per_app,
        forall|k: int|
            0 <= k < admitted(entries, n, caps).len() ==> (#[trigger] admitted(
                entries,
                n,
                caps,
            )[k]) < n,
        forall|a: int, b: int|
            0 <= a < b < admitted(entries, n, caps).len() ==> admitted(entries, n, caps)[a]
                < admitted(entries, n, caps)[b],
        forall|k: int|
            caps.total <= k < admitted(entries, n, caps).len() ==> entries[(#[trigger] admitted(
                entries,
                n,
                caps,
            )[k]) as int].mode == Mode::FrontEnd,
    decreases n,
{
    if n > 0 {
        lemma_admitted_caps(entries, n - 1, caps, uid);
        let before = admitted(entries, n - 1, caps);
        let cur = admitted(entries, n, caps);
        if admits(entries, before, entries[n - 1], caps) {
            assert(cur.drop_last() =~= before);
            assert forall|k: int| 0 <= k < cur.len() implies (#[trigger] cur[k]) < n by {
                if k < before.len() {
                    assert(before[k] < n - 1);
                }
            }
            assert forall|a: int, b: int| 0 <= a < b < cur.len() implies cur[a] < cur[b] by {
                assert(before[a] < n - 1);
                if b < before.len() {
                    assert(cur[b] == before[b]);
                }
            }
            assert forall|k: int| caps.total <= k < cur.len() implies entries[(
            #[trigger] cur[k]) as int].mode == Mode::FrontEnd by {
                if k < before.len() {
                    assert(cur[k] == before[k]);
                }
            }
        } else {
            assert forall|k: int| 0 <= k < cur.len() implies (#[trigger] cur[k]) < n by {
                assert(before[k] < n - 1);
            }
        }
    }
}

} // verus!
