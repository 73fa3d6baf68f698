//! The tasks that are running.

use vstd::prelude::*;

verus! {

/// How long a task may live, in milliseconds: thirty days.
pub const MILLISECONDS_IN_ONE_MONTH: u64 = 2_592_000_000;

/// The ids of the tasks whose transfer is running, none twice.
pub struct RunningQueue {
    running: Vec<u32>,
}

/// What the queue asks for after it was set to a new list of tasks.
pub struct QueueChanges {
    /// The tasks to start, in the order of the list.
    pub start: Vec<u32>,
    /// The tasks to cancel, in the order in which they were running.
    pub cancel: Vec<u32>,
}

/// Whether `x` stands among the first `n` of `list`.
pub open spec fn occurs_before(list: Seq<u32>, n: int, x: u32) -> bool {
    exists|k: int| 0 <= k < n && k < list.len() && #[trigger] list[k] == x
}

/// The numbers among the first `n` of `list` that do not occur earlier in
/// `list`, in order.
pub open spec fn firsts(list: Seq<u32>, n: int) -> Seq<u32>
    decreases n,
{
    if n <= 0 {
        Seq::empty()
    } else if occurs_before(list, n - 1, list[n - 1]) {
        firsts(list, n - 1)
    } else {
        firsts(list, n - 1).push(list[n - 1])
    }
}

/// The numbers among the first `n` of `list` that `other` does not hold, in
/// order.
pub open spec fn without(list: Seq<u32>, n: int, other: Seq<u32>) -> Seq<u32>
    decreases n,
{
    if n <= 0 {
        Seq::empty()
    } else if other.contains(list[n - 1]) {
        without(list, n - 1, other)
    } else {
        without(list, n - 1, other).push(list[n - 1])
    }
}

/// `s` holds no number twice.
pub open spec fn distinct(s: Seq<u32>) -> bool {
    forall|i: int, j: int| 0 <= i < j < s.len() ==> s[i] != s[j]
}

/// Whether `list` holds `x`.
pub fn list_contains(list: &Vec<u32>, x: u32) -> (b: bool)
    ensures
        b == list@.contains(x),
{
    let mut i: usize = 0;
    while i < list.len()
        invariant
            i <= list@.len(),
            forall|j: int| 0 <= j < i ==> list@[j] != x,
        decreases list@.len() - i,
    {
        if list[i] == x {
            return true;
        }
        i = i + 1;
    }
    false
}

/// A number stands in a list exactly if it stands among all its numbers.
pub proof fn lemma_occurs(list: Seq<u32>, x: u32)
    ensures
        list.contains(x) <==> occurs_before(list, list.len() as int, x),
{
    if list.contains(x) {
        let k = choose|k: int| 0 <= k < list.len() && list[k] == x;
        assert(list[k] == x);
    }
    if occurs_before(list, list.len() as int, x) {
        let k = choose|k: int| 0 <= k < list.len() && k < list.len() && #[trigger] list[k] == x;
        assert(list[k] == x);
    }
}

/// What `firsts` holds: the numbers of the list, each once.
#[verifier::rlimit(50)]
pub proof fn lemma_firsts(list: Seq<u32>, n: int)
    requires
        0 <= n <= list.len(),
    ensures
        distinct(firsts(list, n)),
        forall|x: u32| #[trigger] firsts(list, n).contains(x) <==> occurs_before(list, n, x),
    decreases n,
{
    if n > 0 {
        lemma_firsts(list, n - 1);
        let prev = firsts(list, n - 1);
        let cur = firsts(list, n);
        let last = list[n - 1];
        let dup = occurs_before(list, n - 1, last);
        if dup {
            assert(cur == prev);
        } else {
            assert(cur == prev.push(last));
        }
        assert forall|x: u32| cur.contains(x) <==> occurs_before(list, n, x) by {
            if occurs_before(list, n, x) {
                let k = choose|k: int| 0 <= k < n && k < list.len() && #[trigger] list[k] == x;
                if k < n - 1 {
                    assert(occurs_before(list, n - 1, x));
                    assert(prev.contains(x));
                    let a = choose|a: int| 0 <= a < prev.len() && prev[a] == x;
                    assert(cur[a] == x);
                } else if dup {
                    assert(prev.contains(x));
                } else {
                    assert(cur[cur.len() - 1] == x);
                }
            }
            if cur.contains(x) {
                let a = choose|a: int| 0 <= a < cur.len() && cur[a] == x;
                if a < prev.len() {
                    assert(prev[a] == x);
                    assert(prev.contains(x));
                    assert(occurs_before(list, n - 1, x));
                    let k = choose|k: int|
                        0 <= k < n - 1 && k < list.len() && #[trigger] list[k] == x;
                    assert(list[k] == x);
                } else {
                    assert(list[n - 1] == x);
                }
            }
        }
        if !dup {
            assert forall|i: int, j: int| 0 <= i < j < cur.len() implies cur[i] != cur[j] by {
                if j == cur.len() - 1 {
                    assert(prev[i] == cur[i]);
                    assert(prev.contains(cur[i]));
                } else {
                    assert(prev[i] == cur[i] && prev[j] == cur[j]);
                }
            }
        }
    }
}

/// What `without` holds: the numbers of the list that the other list does
/// not hold.
#[verifier::rlimit(50)]
pub proof fn lemma_without(list: Seq<u32>, n: int, other: Seq<u32>)
    requires
        0 <= n <= list.len(),
    ensures
        forall|x: u32|
            #[trigger] without(list, n, other).contains(x) <==> (occurs_before(list, n, x)
                && !other.contains(x)),
    decreases n,
{
    if n > 0 {
        lemma_without(list, n - 1, other);
        let prev = without(list, n - 1, other);
        let cur = without(list, n, other);
        let last = list[n - 1];
        if other.contains(last) {
            assert(cur == prev);
        } else {
            assert(cur == prev.push(last));
        }
        assert forall|x: u32|
            cur.contains(x) <==> (occurs_before(list, n, x) && !other.contains(x)) by {
            if occurs_before(list, n, x) && !other.contains(x) {
                let k = choose|k: int| 0 <= k < n && k < list.len() && #[trigger] list[k] == x;
                if k < n - 1 {
                    assert(occurs_before(list, n - 1, x));
                    assert(prev.contains(x));
                    let a = choose|a: int| 0 <= a < prev.len() && prev[a] == x;
                    assert(cur[a] == x);
                } else {
                    assert(cur[cur.len() - 1] == x);
                }
            }
            if cur.contains(x) {
                let a = choose|a: int| 0 <= a < cur.len() && cur[a] == x;
                if a < prev.len() {
                    assert(prev[a] == x);
                    assert(prev.contains(x));
                    assert(occurs_before(list, n - 1, x));
                    let k = choose|k: int|
                        0 <= k < n - 1 && k < list.len() && #[trigger] list[k] == x;
                    assert(list[k] == x);
                } else {
                    assert(list[n - 1] == x);
                }
            }
        }
    }
}

fn unique_of(list: &Vec<u32>) -> (v: Vec<u32>)
    ensures
        v@ == firsts(list@, list@.len() as int),
{
    let mut v: Vec<u32> = Vec::new();
    let mut i: usize = 0;
    while i < list.len()
        invariant
            i <= list@.len(),
            v@ == firsts(list@, i as int),
        decreases list@.len() - i,
    {
        proof {
            lemma_firsts(list@, i as int);
        }
        if !list_contains(&v, list[i]) {
            v.push(list[i]);
        }
        i = i + 1;
    }
    v
}

fn minus(list: &Vec<u32>, other: &Vec<u32>) -> (v: Vec<u32>)
    ensures
        v@ == without(list@, list@.len() as int, other@),
{
    let mut v: Vec<u32> = Vec::new();
    let mut i: usize = 0;
    while i < list.len()
        invariant
            i <= list@.len(),
            v@ == without(list@, i as int, other@),
        decreases list@.len() - i,
    {
        if !list_contains(other, list[i]) {
            v.push(list[i]);
        }
        i = i + 1;
    }
    v
}

impl RunningQueue {
    /// The ids of the running tasks, in the order in which they started.
    pub closed spec fn view(&self) -> Seq<u32> {
        self.running@
    }

    /// The invariant of the queue: no task runs twice.
    pub open spec fn wf(&self) -> bool {
        distinct(self@)
    }

    /// An empty queue.
    pub fn new() -> (q: RunningQueue)
        ensures
            q.wf(),
            q@ == Seq::<u32>::empty(),
    {
        RunningQueue { running: Vec::new() }
    }

    /// How many tasks are running.
    pub fn running_tasks(&self) -> (n: usize)
        ensures
            n == self@.len(),
    {
        self.running.len()
    }

    /// Whether task `task_id` is running.
    pub fn contains(&self, task_id: u32) -> (b: bool)
        ensures
            b == self@.contains(task_id),
    {
        list_contains(&self.running, task_id)
    }

    /// The ids of the running tasks.
    pub fn tasks(&self) -> (v: &Vec<u32>)
        ensures
            v@ == self@,
    {
        &self.running
    }

    /// Makes the tasks of `admit_list` the running ones. Returns the tasks
    /// that are new to the queue and those that leave it.
    #[verifier::rlimit(50)]
    pub fn reschedule(&mut self, admit_list: &Vec<u32>) -> (changes: QueueChanges)
        requires
            old(self).wf(),
        ensures
            final(self).wf(),
            final(self)@ == firsts(admit_list@, admit_list@.len() as int),
            forall|t: u32| final(self)@.contains(t) <==> admit_list@.contains(t),
            changes.start@ == without(final(self)@, final(self)@.len() as int, old(self)@),
            changes.cancel@ == without(old(self)@, old(self)@.len() as int, admit_list@),
            forall|t: u32|
                changes.start@.contains(t) <==> (admit_list@.contains(t) && !old(self)@.contains(
                    t,
                )),
            forall|t: u32|
                changes.cancel@.contains(t) <==> (old(self)@.contains(t) && !admit_list@.contains(
                    t,
                )),
    {
        let next = unique_of(admit_list);
        let start = minus(&next, &self.running);
        let cancel = minus(&self.running, admit_list);
        proof {
            let old_running = self.running@;
            lemma_firsts(admit_list@, admit_list@.len() as int);
            lemma_without(next@, next@.len() as int, old_running);
            lemma_without(old_running, old_running.len() as int, admit_list@);
            assert forall|t: u32| next@.contains(t) <==> admit_list@.contains(t) by {
                lemma_occurs(admit_list@, t);
                assert(next@.contains(t) <==> occurs_before(
                    admit_list@,
                    admit_list@.len() as int,
                    t,
                ));
            }
            assert forall|t: u32|
                start@.contains(t) <==> (admit_list@.contains(t) && !old_running.contains(
                    t,
                )) by {
                lemma_occurs(next@, t);
                assert(next@.contains(t) <==> admit_list@.contains(t));
                assert(start@.contains(t) <==> (occurs_before(next@, next@.len() as int, t)
                    && !old_running.contains(t)));
            }
            assert forall|t: u32|
                cancel@.contains(t) <==> (old_running.contains(t) && !admit_list@.contains(
                    t,
                )) by {
                lemma_occurs(old_running, t);
                assert(cancel@.contains(t) <==> (occurs_before(
                    old_running,
                    old_running.len() as int,
                    t,
                ) && !admit_list@.contains(t)));
            }
        }
        self.running = next;
        QueueChanges { start, cancel }
    }

    /// Takes a task out of the queue whose transfer ended. Returns whether
    /// it was running.
    #[verifier::rlimit(50)]
    pub fn task_finish(&mut self, task_id: u32) -> (was_running: bool)
        requires
            old(self).wf(),
        ensures
            final(self).wf(),
            was_running == old(self)@.contains(task_id),
            !final(self)@.contains(task_id),
            forall|t: u32| t != task_id ==> (final(self)@.contains(t) <==> old(self)@.contains(t)),
            final(self)@ == without(old(self)@, old(self)@.len() as int, seq![task_id]),
    {
        let mut gone: Vec<u32> = Vec::new();
        gone.push(task_id);
        let was_running = list_contains(&self.running, task_id);
        let rest = minus(&self.running, &gone);
        proof {
            let before = self.running@;
            lemma_without(before, before.len() as int, gone@);
            assert(gone@ =~= seq![task_id]);
            assert(gone@[0] == task_id);
            assert(gone@.contains(task_id));
            lemma_without_keeps_distinct(before, before.len() as int, gone@);
            assert forall|t: u32| t != task_id implies (rest@.contains(t) <==> before.contains(
                t,
            )) by {
                lemma_occurs(before, t);
                if gone@.contains(t) {
                    let k = choose|k: int| 0 <= k < gone@.len() && gone@[k] == t;
                    assert(gone@[k] == task_id);
                }
            }
        }
        self.running = rest;
        was_running
    }

    /// Puts a task back into the queue whose transfer was cancelled though
    /// it is still admitted. Returns whether it runs again.
    pub fn try_restart(&mut self, task_id: u32, admitted: bool) -> (restarted: bool)
        requires
            old(self).wf(),
        ensures
            final(self).wf(),
            restarted == (admitted && !old(self)@.contains(task_id)),
            restarted ==> final(self)@ == old(self)@.push(task_id),
            !restarted ==> final(self)@ == old(self)@,
    {
        if admitted && !list_contains(&self.running, task_id) {
            self.running.push(task_id);
            true
        } else {
            false
        }
    }
}

/// Taking numbers out of a list that holds none twice leaves such a list.
pub proof fn lemma_without_keeps_distinct(list: Seq<u32>, n: int, other: Seq<u32>)
    requires
        0 <= n <= list.len(),
        distinct(list),
    ensures
        distinct(without(list, n, other)),
    decreases n,
{
    if n > 0 {
        lemma_without_keeps_distinct(list, n - 1, other);
        lemma_without(list, n - 1, other);
        let prev = without(list, n - 1, other);
        let cur = without(list, n, other);
        if !other.contains(list[n - 1]) {
            assert(cur == prev.push(list[n - 1]));
            assert forall|i: int, j: int| 0 <= i < j < cur.len() implies cur[i] != cur[j] by {
                if j == cur.len() - 1 {
                    assert(prev[i] == cur[i]);
                    assert(prev.contains(cur[i]));
                    assert(occurs_before(list, n - 1, cur[i]));
                    let k = choose|k: int|
                        0 <= k < n - 1 && k < list.len() && #[trigger] list[k] == cur[i];
                    assert(list[k] != list[n - 1]);
                } else {
                    assert(prev[i] == cur[i] && prev[j] == cur[j]);
                }
            }
        } else {
            assert(cur == prev);
        }
    }
}

/// Whether a task that was made at `ctime` has lived too long at `now`.
pub open spec fn timed_out(ctime: u64, now: u64) -> bool {
    now - ctime > MILLISECONDS_IN_ONE_MONTH
}

pub fn is_timed_out(ctime: u64, now: u64) -> (b: bool)
    ensures
        b == timed_out(ctime, now),
{
    now >= ctime && now - ctime > MILLISECONDS_IN_ONE_MONTH
}

} // verus!
