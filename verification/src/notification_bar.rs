//! What is kept for the notifications of tasks and of groups of tasks.

use crate::lru::{key_index, lemma_key_index, unique_keys};
use vstd::prelude::*;

verus! {

/// How old the settings of a group without tasks may get, in
/// milliseconds: seven days.
pub const MILLIS_IN_A_WEEK: u64 = 604_800_000;

/// The value of the row of `key` among the rows.
pub open spec fn row_of<V>(rows: Seq<(u32, V)>, key: u32) -> Option<V> {
    if key_index(rows, key) < rows.len() {
        Some(rows[key_index(rows, key)].1)
    } else {
        None
    }
}

/// A table with one row for each key, in the order in which the keys first
/// came.
pub struct Table<V> {
    rows: Vec<(u32, V)>,
}

impl<V> Table<V> {
    /// The rows.
    pub closed spec fn view(&self) -> Seq<(u32, V)> {
        self.rows@
    }

    /// The invariant of a table: no key has two rows.
    pub open spec fn wf(&self) -> bool {
        unique_keys(self@)
    }

    /// The value of the row of `key`.
    pub open spec fn spec_get(&self, key: u32) -> Option<V> {
        row_of(self@, key)
    }

    pub fn new() -> (t: Table<V>)
        ensures
            t.wf(),
            t@ == Seq::<(u32, V)>::empty(),
    {
        Table { rows: Vec::new() }
    }

    fn find(&self, key: u32) -> (p: usize)
        ensures
            p == key_index(self@, key),
            p <= self@.len(),
    {
        let mut i: usize = 0;
        while i < self.rows.len()
            invariant
                i <= self.rows@.len(),
                forall|j: int| 0 <= j < i ==> (#[trigger] self.rows@[j]).0 != key,
            decreases self.rows@.len() - i,
        {
            if self.rows[i].0 == key {
                proof {
                    lemma_key_index(self@, key);
                    let p = key_index(self@, key);
                    if p < i {
                        assert(self.rows@[p].0 != key);
                    }
                }
                return i;
            }
            i = i + 1;
        }
        proof {
            lemma_key_index(self@, key);
            let p = key_index(self@, key);
            if p < self@.len() {
                assert(self.rows@[p].0 != key);
            }
        }
        i
    }

    /// How many rows there are.
    pub fn len(&self) -> (n: usize)
        ensures
            n == self@.len(),
    {
        self.rows.len()
    }

    /// The key and the value of row `i`.
    pub fn row(&self, i: usize) -> (r: &(u32, V))
        requires
            i < self@.len(),
        ensures
            *r == self@[i as int],
    {
        &self.rows[i]
    }

    /// The value of the row of `key`.
    pub fn get(&self, key: u32) -> (v: Option<&V>)
        ensures
            v.is_some() == self.spec_get(key).is_some(),
            v.is_some() ==> *v.unwrap() == self.spec_get(key).unwrap(),
    {
        let p = self.find(key);
        if p < self.rows.len() {
            Some(&self.rows[p].1)
        } else {
            None
        }
    }

    pub fn contains(&self, key: u32) -> (b: bool)
        ensures
            b == self.spec_get(key).is_some(),
    {
        let p = self.find(key);
        p < self.rows.len()
    }

    /// Sets the value of `key`: in its row if it has one, in a new row
    /// else.
    #[verifier::rlimit(50)]
    pub fn upsert(&mut self, key: u32, value: V)
        requires
            old(self).wf(),
        ensures
            final(self).wf(),
            final(self).spec_get(key) == Some(value),
            forall|other: u32|
                other != key ==> (#[trigger] final(self).spec_get(other)) == old(self).spec_get(
                    other,
                ),
            final(self)@ == (if key_index(old(self)@, key) < old(self)@.len() {
                old(self)@.update(key_index(old(self)@, key), (key, value))
            } else {
                old(self)@.push((key, value))
            }),
    {
        let p = self.find(key);
        let ghost before = self.rows@;
        proof {
            lemma_key_index(before, key);
        }
        if p < self.rows.len() {
            self.rows.set(p, (key, value));
        } else {
            self.rows.push((key, value));
        }
        proof {
            let after = self.rows@;
            assert forall|i: int, j: int| 0 <= i < j < after.len() implies after[i].0
                != after[j].0 by {
                if p < before.len() {
                    assert(before[i].0 != before[j].0);
                } else if j < before.len() {
                    assert(before[i].0 != before[j].0);
                } else {
                    assert(after[i] == before[i]);
                }
            }
            lemma_lookup_after(before, after, key, p as int, key);
            assert forall|other: u32| other != key implies (#[trigger] self.spec_get(other))
                == old(self).spec_get(other) by {
                lemma_lookup_after(before, after, key, p as int, other);
            }
        }
    }

    /// Takes out the row of `key`. Returns whether there was one.
    pub fn delete(&mut self, key: u32) -> (had: bool)
        requires
            old(self).wf(),
        ensures
            final(self).wf(),
            had == old(self).spec_get(key).is_some(),
            final(self).spec_get(key).is_none(),
            forall|other: u32|
                other != key ==> (#[trigger] final(self).spec_get(other)) == old(self).spec_get(
                    other,
                ),
            final(self)@ == (if key_index(old(self)@, key) < old(self)@.len() {
                old(self)@.remove(key_index(old(self)@, key))
            } else {
                old(self)@
            }),
    {
        let p = self.find(key);
        let ghost before = self.rows@;
        proof {
            lemma_key_index(before, key);
        }
        if p < self.rows.len() {
            let _ = self.rows.remove(p);
            proof {
                let after = self.rows@;
                lemma_removed(before, p as int, key);
                assert forall|other: u32| other != key implies (#[trigger] self.spec_get(other))
                    == old(self).spec_get(other) by {
                    lemma_removed(before, p as int, other);
                }
            }
            true
        } else {
            false
        }
    }
}

#[verifier::rlimit(50)]
proof fn lemma_lookup_after<V>(before: Seq<(u32, V)>, after: Seq<(u32, V)>, key: u32, p: int, other: u32)
    requires
        unique_keys(before),
        p == key_index(before, key),
        after.len() > 0,
        p < before.len() ==> after.len() == before.len() && after[p].0 == key && forall|i: int|
            0 <= i < before.len() && i != p ==> after[i] == before[i],
        p >= before.len() ==> after.len() == before.len() + 1 && after[before.len() as int].0
            == key && forall|i: int| 0 <= i < before.len() ==> after[i] == before[i],
    ensures
        other == key ==> key_index(after, key) < after.len() && after[key_index(after, key)]
            == after[if p < before.len() {
            p
        } else {
            before.len() as int
        }],
        other != key ==> (key_index(after, other) < after.len()) == (key_index(before, other)
            < before.len()) && (key_index(before, other) < before.len() ==> after[key_index(
            after,
            other,
        )] == before[key_index(before, other)]),
{
    lemma_key_index(before, key);
    lemma_key_index(after, key);
    lemma_key_index(before, other);
    lemma_key_index(after, other);
    let at = if p < before.len() {
        p
    } else {
        before.len() as int
    };
    if other == key {
        let q = key_index(after, key);
        if q < at {
            assert(after[q] == before[q]);
            assert(before[q].0 != key);
        }
        if q > at {
            assert(after[at].0 != key);
        }
    } else {
        let a = key_index(before, other);
        let b = key_index(after, other);
        if a < before.len() {
            assert(a != p);
            assert(after[a] == before[a]);
            if b < a {
                if b != at {
                    assert(after[b] == before[b]);
                }
                assert(before[b].0 != other);
            }
            if b > a {
                assert(after[a].0 != other);
            }
        } else if b < after.len() {
            if b != at {
                assert(after[b] == before[b]);
                assert(before[b].0 != other);
            }
        }
    }
}

#[verifier::rlimit(50)]
proof fn lemma_removed<V>(before: Seq<(u32, V)>, p: int, other: u32)
    requires
        unique_keys(before),
        0 <= p < before.len(),
    ensures
        unique_keys(before.remove(p)),
        other == before[p].0 ==> key_index(before.remove(p), other) >= before.remove(p).len(),
        other != before[p].0 ==> (key_index(before.remove(p), other) < before.remove(p).len())
            == (key_index(before, other) < before.len()) && (key_index(before, other)
            < before.len() ==> before.remove(p)[key_index(before.remove(p), other)]
            == before[key_index(before, other)]),
{
    let after = before.remove(p);
    assert forall|i: int, j: int| 0 <= i < j < after.len() implies after[i].0 != after[j].0 by {
        let a = if i < p {
            i
        } else {
            i + 1
        };
        let b = if j < p {
            j
        } else {
            j + 1
        };
        assert(after[i] == before[a] && after[j] == before[b]);
    }
    lemma_key_index(before, other);
    lemma_key_index(after, other);
    let a = key_index(before, other);
    let b = key_index(after, other);
    if b < after.len() {
        let b0 = if b < p {
            b
        } else {
            b + 1
        };
        assert(after[b] == before[b0]);
        assert(before[b0].0 == other);
        if other == before[p].0 {
            assert(before[b0].0 != before[p].0);
        }
        if a < b0 {
            assert(before[a].0 == other);
            assert(before[a].0 != before[b0].0);
        }
        if a > b0 {
            assert(before[b0].0 != other);
        }
    } else if other != before[p].0 {
        if a < before.len() {
            let a1 = if a < p {
                a
            } else {
                a - 1
            };
            assert(after[a1] == before[a]);
            assert(after[a1].0 != other);
        }
    }
}

/// The title and the text that a caller set for a notification.
pub struct CustomizedNotification {
    pub title: Option<String>,
    pub text: Option<String>,
}

/// The settings of a group.
#[derive(Clone, Copy, PartialEq, Eq, Structural, Debug)]
pub struct GroupConfig {
    pub gauge: bool,
    pub attach_able: bool,
    pub ctime: u64,
}

/// What is kept for the notifications.
pub struct NotificationDb {
    /// For each task that set it, whether its notification is shown.
    task_config: Table<bool>,
    /// For each task that belongs to a group, the group.
    group_notification: Table<u32>,
    /// For each group, its settings.
    group_config: Table<GroupConfig>,
    /// For each task that set them, its title and text.
    task_content: Table<CustomizedNotification>,
    /// For each group that set them, its title and text.
    group_content: Table<CustomizedNotification>,
}

/// The tasks among the first `n` rows that belong to the group, in order.
pub open spec fn tasks_of_group(rows: Seq<(u32, u32)>, n: int, group_id: u32) -> Seq<u32>
    decreases n,
{
    if n <= 0 {
        Seq::empty()
    } else if rows[n - 1].1 == group_id {
        tasks_of_group(rows, n - 1, group_id).push(rows[n - 1].0)
    } else {
        tasks_of_group(rows, n - 1, group_id)
    }
}

/// Whether the settings of a group are to be cleared at `now`: they are
/// older than a week, and no task belongs to the group.
pub open spec fn overdue(config: GroupConfig, members: nat, now: u64) -> bool {
    config.ctime < now - MILLIS_IN_A_WEEK && members == 0
}

/// A text that may be missing, as a plain value.
pub open spec fn text_view(t: Option<String>) -> Option<Seq<char>> {
    match t {
        Some(s) => Some(s@),
        None => None,
    }
}

/// For each key with a row, the title and the text of the row, as plain
/// values.
pub open spec fn titles_of(rows: Seq<(u32, CustomizedNotification)>) -> Map<
    u32,
    (Option<Seq<char>>, Option<Seq<char>>),
> {
    Map::new(
        |k: u32| row_of(rows, k).is_some(),
        |k: u32| (text_view(row_of(rows, k).unwrap().title), text_view(row_of(rows, k).unwrap().text)),
    )
}

/// For each key with a row, the value of the row.
pub open spec fn flags_of(rows: Seq<(u32, bool)>) -> Map<u32, bool> {
    Map::new(|k: u32| row_of(rows, k).is_some(), |k: u32| row_of(rows, k).unwrap())
}

impl NotificationDb {
    /// For each task that set them, its title and its text.
    pub open spec fn task_titles(&self) -> Map<u32, (Option<Seq<char>>, Option<Seq<char>>)> {
        titles_of(self.task_content())
    }

    /// For each task that set it, whether its notification is shown.
    pub open spec fn task_shown(&self) -> Map<u32, bool> {
        flags_of(self.task_config())
    }

    pub closed spec fn task_config(&self) -> Seq<(u32, bool)> {
        self.task_config@
    }

    pub closed spec fn group_notification(&self) -> Seq<(u32, u32)> {
        self.group_notification@
    }

    pub closed spec fn group_config(&self) -> Seq<(u32, GroupConfig)> {
        self.group_config@
    }

    pub closed spec fn task_content(&self) -> Seq<(u32, CustomizedNotification)> {
        self.task_content@
    }

    pub closed spec fn group_content(&self) -> Seq<(u32, CustomizedNotification)> {
        self.group_content@
    }

    /// The invariant: in no table a key has two rows.
    pub open spec fn wf(&self) -> bool {
        &&& unique_keys(self.task_config())
        &&& unique_keys(self.group_notification())
        &&& unique_keys(self.group_config())
        &&& unique_keys(self.task_content())
        &&& unique_keys(self.group_content())
    }

    /// Empty tables.
    pub fn new() -> (db: NotificationDb)
        ensures
            db.wf(),
            db.task_config().len() == 0,
            db.group_notification().len() == 0,
            db.group_config().len() == 0,
            db.task_content().len() == 0,
            db.group_content().len() == 0,
    {
        NotificationDb {
            task_config: Table::new(),
            group_notification: Table::new(),
            group_config: Table::new(),
            task_content: Table::new(),
            group_content: Table::new(),
        }
    }

    /// Forgets everything about a task.
    pub fn clear_task_info(&mut self, task_id: u32)
        requires
            old(self).wf(),
        ensures
            final(self).wf(),
            final(self).task_config() == (if key_index(old(self).task_config(), task_id) < old(self).task_config().len() {
                old(self).task_config().remove(key_index(old(self).task_config(), task_id))
            } else {
                old(self).task_config()
            }),
            final(self).task_content() == (if key_index(old(self).task_content(), task_id) < old(self).task_content().len() {
                old(self).task_content().remove(key_index(old(self).task_content(), task_id))
            } else {
                old(self).task_content()
            }),
            final(self).group_notification() == (if key_index(
                old(self).group_notification(),
                task_id,
            ) < old(self).group_notification().len() {
                old(self).group_notification().remove(
                    key_index(old(self).group_notification(), task_id),
                )
            } else {
                old(self).group_notification()
            }),
            final(self).group_config() == old(self).group_config(),
            final(self).group_content() == old(self).group_content(),
    {
        let _ = self.task_config.delete(task_id);
        let _ = self.task_content.delete(task_id);
        let _ = self.group_notification.delete(task_id);
    }

    /// Whether the notification of a task is shown: it is unless the task
    /// turned it off.
    pub fn check_task_notification_available(&self, task_id: &u32) -> (b: bool)
        ensures
            b == (key_index(self.task_config(), *task_id) >= self.task_config().len()
                || self.task_config()[key_index(self.task_config(), *task_id)].1),
    {
        match self.task_config.get(*task_id) {
            Some(display) => *display,
            None => true,
        }
    }

    /// Turns the notification of a task off.
    pub fn disable_task_notification(&mut self, task_id: u32)
        requires
            old(self).wf(),
        ensures
            final(self).wf(),
            final(self).task_config() == (if key_index(old(self).task_config(), task_id) < old(self).task_config().len() {
                old(self).task_config().update(
                    key_index(old(self).task_config(), task_id),
                    (task_id, false),
                )
            } else {
                old(self).task_config().push((task_id, false))
            }),
            final(self).task_content() == old(self).task_content(),
            final(self).group_notification() == old(self).group_notification(),
            final(self).group_config() == old(self).group_config(),
            final(self).group_content() == old(self).group_content(),
            final(self).task_shown() == old(self).task_shown().insert(task_id, false),
    {
        self.task_config.upsert(task_id, false);
        proof {
            assert forall|k: u32| k != task_id implies row_of(self.task_config(), k) == row_of(
                old(self).task_config(),
                k,
            ) by {
                assert(self.task_config.spec_get(k) == old(self).task_config.spec_get(k));
            }
            assert(self.task_config.spec_get(task_id) == Some(false));
            assert(self.task_shown() =~= old(self).task_shown().insert(task_id, false));
        }
    }

    /// Puts a task into a group, in place of any group it was in.
    pub fn update_task_group(&mut self, task_id: u32, group_id: u32)
        requires
            old(self).wf(),
        ensures
            final(self).wf(),
            final(self).group_notification() == (if key_index(
                old(self).group_notification(),
                task_id,
            ) < old(self).group_notification().len() {
                old(self).group_notification().update(
                    key_index(old(self).group_notification(), task_id),
                    (task_id, group_id),
                )
            } else {
                old(self).group_notification().push((task_id, group_id))
            }),
            final(self).task_config() == old(self).task_config(),
            final(self).task_content() == old(self).task_content(),
            final(self).group_config() == old(self).group_config(),
            final(self).group_content() == old(self).group_content(),
    {
        self.group_notification.upsert(task_id, group_id);
    }

    /// The tasks of a group.
    pub fn query_group_tasks(&self, group_id: u32) -> (v: Vec<u32>)
        ensures
            v@ == tasks_of_group(
                self.group_notification(),
                self.group_notification().len() as int,
                group_id,
            ),
    {
        let mut v: Vec<u32> = Vec::new();
        let mut i: usize = 0;
        while i < self.group_notification.len()
            invariant
                i <= self.group_notification@.len(),
                v@ == tasks_of_group(self.group_notification@, i as int, group_id),
            decreases self.group_notification@.len() - i,
        {
            let row = self.group_notification.row(i);
            if row.1 == group_id {
                v.push(row.0);
            }
            i = i + 1;
        }
        v
    }

    /// The group of a task.
    pub fn query_task_gid(&self, task_id: u32) -> (g: Option<u32>)
        ensures
            g == (if key_index(self.group_notification(), task_id)
                < self.group_notification().len() {
                Some(self.group_notification()[key_index(self.group_notification(), task_id)].1)
            } else {
                None
            }),
    {
        match self.group_notification.get(task_id) {
            Some(g) => Some(*g),
            None => None,
        }
    }

    /// Whether a group has settings.
    pub fn contains_group(&self, group_id: u32) -> (b: bool)
        ensures
            b == (key_index(self.group_config(), group_id) < self.group_config().len()),
    {
        self.group_config.contains(group_id)
    }

    /// Whether tasks can still be put into a group.
    pub fn attach_able(&self, group_id: u32) -> (b: bool)
        ensures
            b == (key_index(self.group_config(), group_id) < self.group_config().len()
                && self.group_config()[key_index(self.group_config(), group_id)].1.attach_able),
    {
        match self.group_config.get(group_id) {
            Some(c) => c.attach_able,
            None => false,
        }
    }

    /// Whether the notification of a group shows a gauge.
    pub fn is_gauge(&self, group_id: u32) -> (b: bool)
        ensures
            b == (key_index(self.group_config(), group_id) < self.group_config().len()
                && self.group_config()[key_index(self.group_config(), group_id)].1.gauge),
    {
        match self.group_config.get(group_id) {
            Some(c) => c.gauge,
            None => false,
        }
    }

    /// Sets the gauge and the time of a group. A new group takes tasks; a
    /// group that is there keeps whether it does.
    pub fn update_group_config(&mut self, group_id: u32, gauge: bool, ctime: u64)
        requires
            old(self).wf(),
        ensures
            final(self).wf(),
            final(self).group_config() == (if key_index(old(self).group_config(), group_id) < old(self).group_config().len() {
                old(self).group_config().update(
                    key_index(old(self).group_config(), group_id),
                    (
                        group_id,
                        GroupConfig {
                            gauge,
                            attach_able: old(self).group_config()[key_index(
                                old(self).group_config(),
                                group_id,
                            )].1.attach_able,
                            ctime,
                        },
                    ),
                )
            } else {
                old(self).group_config().push(
                    (group_id, GroupConfig { gauge, attach_able: true, ctime }),
                )
            }),
            final(self).task_config() == old(self).task_config(),
            final(self).task_content() == old(self).task_content(),
            final(self).group_notification() == old(self).group_notification(),
            final(self).group_content() == old(self).group_content(),
    {
        let attach_able = match self.group_config.get(group_id) {
            Some(c) => c.attach_able,
            None => true,
        };
        self.group_config.upsert(group_id, GroupConfig { gauge, attach_able, ctime });
    }

    /// Closes a group for new tasks. A group without settings stays
    /// without.
    pub fn disable_attach_group(&mut self, group_id: u32)
        requires
            old(self).wf(),
        ensures
            final(self).wf(),
            final(self).group_config() == (if key_index(old(self).group_config(), group_id) < old(self).group_config().len() {
                old(self).group_config().update(
                    key_index(old(self).group_config(), group_id),
                    (
                        group_id,
                        GroupConfig {
                            attach_able: false,
                            ..old(self).group_config()[key_index(
                                old(self).group_config(),
                                group_id,
                            )].1
                        },
                    ),
                )
            } else {
                old(self).group_config()
            }),
            final(self).task_config() == old(self).task_config(),
            final(self).task_content() == old(self).task_content(),
            final(self).group_notification() == old(self).group_notification(),
            final(self).group_content() == old(self).group_content(),
    {
        let known = match self.group_config.get(group_id) {
            Some(c) => Some(*c),
            None => None,
        };
        match known {
            Some(c) => {
                self.group_config.upsert(
                    group_id,
                    GroupConfig { gauge: c.gauge, attach_able: false, ctime: c.ctime },
                );
            },
            None => {},
        }
    }

    /// The title and the text of a task.
    pub fn query_task_customized_notification(&self, task_id: u32) -> (c: Option<
        &CustomizedNotification,
    >)
        ensures
            c.is_some() == (key_index(self.task_content(), task_id) < self.task_content().len()),
            c.is_some() ==> *c.unwrap() == self.task_content()[key_index(
                self.task_content(),
                task_id,
            )].1,
    {
        self.task_content.get(task_id)
    }

    /// Sets the title and the text of a task.
    pub fn update_task_customized_notification(
        &mut self,
        task_id: u32,
        title: Option<String>,
        text: Option<String>,
    )
        requires
            old(self).wf(),
        ensures
            final(self).wf(),
            final(self).task_content() == (if key_index(old(self).task_content(), task_id) < old(self).task_content().len() {
                old(self).task_content().update(
                    key_index(old(self).task_content(), task_id),
                    (task_id, CustomizedNotification { title, text }),
                )
            } else {
                old(self).task_content().push((task_id, CustomizedNotification { title, text }))
            }),
            final(self).task_config() == old(self).task_config(),
            final(self).group_config() == old(self).group_config(),
            final(self).group_notification() == old(self).group_notification(),
            final(self).group_content() == old(self).group_content(),
            final(self).task_titles() == old(self).task_titles().insert(
                task_id,
                (text_view(title), text_view(text)),
            ),
    {
        self.task_content.upsert(task_id, CustomizedNotification { title, text });
        proof {
            assert forall|k: u32| k != task_id implies row_of(self.task_content(), k) == row_of(
                old(self).task_content(),
                k,
            ) by {
                assert(self.task_content.spec_get(k) == old(self).task_content.spec_get(k));
            }
            assert(self.task_content.spec_get(task_id) == Some(
                CustomizedNotification { title, text },
            ));
            assert(self.task_titles() =~= old(self).task_titles().insert(
                task_id,
                (text_view(title), text_view(text)),
            ));
        }
    }

    /// The title and the text of a group.
    pub fn query_group_customized_notification(&self, group_id: u32) -> (c: Option<
        &CustomizedNotification,
    >)
        ensures
            c.is_some() == (key_index(self.group_content(), group_id) < self.group_content().len()),
            c.is_some() ==> *c.unwrap() == self.group_content()[key_index(
                self.group_content(),
                group_id,
            )].1,
    {
        self.group_content.get(group_id)
    }

    /// Sets the title and the text of a group.
    pub fn update_group_customized_notification(
        &mut self,
        group_id: u32,
        title: Option<String>,
        text: Option<String>,
    )
        requires
            old(self).wf(),
        ensures
            final(self).wf(),
            final(self).group_content() == (if key_index(old(self).group_content(), group_id)
                < old(self).group_content().len() {
                old(self).group_content().update(
                    key_index(old(self).group_content(), group_id),
                    (group_id, CustomizedNotification { title, text }),
                )
            } else {
                old(self).group_content().push((group_id, CustomizedNotification { title, text }))
            }),
            final(self).task_config() == old(self).task_config(),
            final(self).group_config() == old(self).group_config(),
            final(self).group_notification() == old(self).group_notification(),
            final(self).task_content() == old(self).task_content(),
    {
        self.group_content.upsert(group_id, CustomizedNotification { title, text });
    }

    /// Forgets the title and the text of a task.
    pub fn delete_task_customized(&mut self, task_id: u32)
        requires
            old(self).wf(),
        ensures
            final(self).wf(),
            final(self).task_content() == (if key_index(old(self).task_content(), task_id) < old(self).task_content().len() {
                old(self).task_content().remove(key_index(old(self).task_content(), task_id))
            } else {
                old(self).task_content()
            }),
            final(self).task_config() == old(self).task_config(),
            final(self).group_config() == old(self).group_config(),
            final(self).group_notification() == old(self).group_notification(),
            final(self).group_content() == old(self).group_content(),
    {
        let _ = self.task_content.delete(task_id);
    }

    /// Forgets the title and the text of a group.
    pub fn delete_group_customized(&mut self, group_id: u32)
        requires
            old(self).wf(),
        ensures
            final(self).wf(),
            final(self).group_content() == (if key_index(old(self).group_content(), group_id)
                < old(self).group_content().len() {
                old(self).group_content().remove(key_index(old(self).group_content(), group_id))
            } else {
                old(self).group_content()
            }),
            final(self).task_config() == old(self).task_config(),
            final(self).group_config() == old(self).group_config(),
            final(self).group_notification() == old(self).group_notification(),
            final(self).task_content() == old(self).task_content(),
    {
        let _ = self.group_content.delete(group_id);
    }
}

/// Where keys are distinct, a row is found under its key.
pub proof fn lemma_row_found<V>(rows: Seq<(u32, V)>, i: int)
    requires
        unique_keys(rows),
        0 <= i < rows.len(),
    ensures
        key_index(rows, rows[i].0) == i,
        row_of(rows, rows[i].0) == Some(rows[i].1),
{
    lemma_key_index(rows, rows[i].0);
    let p = key_index(rows, rows[i].0);
    if p < i {
        assert(rows[p].0 != rows[i].0);
    }
    if p > i {
        assert(rows[i].0 != rows[i].0);
    }
}

/// The tasks of a group are the tasks whose row names the group.
pub proof fn lemma_tasks_of_group(rows: Seq<(u32, u32)>, n: int, group_id: u32)
    requires
        unique_keys(rows),
        0 <= n <= rows.len(),
    ensures
        forall|k: int|
            0 <= k < tasks_of_group(rows, n, group_id).len() ==> row_of(
                rows,
                #[trigger] tasks_of_group(rows, n, group_id)[k],
            ) == Some(group_id),
        forall|i: int|
            0 <= i < n && (#[trigger] rows[i]).1 == group_id ==> tasks_of_group(
                rows,
                n,
                group_id,
            ).contains(rows[i].0),
    decreases n,
{
    if n > 0 {
        lemma_tasks_of_group(rows, n - 1, group_id);
        let prev = tasks_of_group(rows, n - 1, group_id);
        let cur = tasks_of_group(rows, n, group_id);
        lemma_row_found(rows, n - 1);
        if rows[n - 1].1 == group_id {
            assert(cur == prev.push(rows[n - 1].0));
            assert forall|k: int| 0 <= k < cur.len() implies row_of(rows, #[trigger] cur[k])
                == Some(group_id) by {
                if k < prev.len() {
                    assert(cur[k] == prev[k]);
                }
            }
            assert forall|i: int| 0 <= i < n && (#[trigger] rows[i]).1 == group_id implies cur.contains(
                rows[i].0,
            ) by {
                if i < n - 1 {
                    assert(prev.contains(rows[i].0));
                    let k = choose|k: int| 0 <= k < prev.len() && prev[k] == rows[i].0;
                    assert(cur[k] == rows[i].0);
                } else {
                    assert(cur[cur.len() - 1] == rows[i].0);
                }
            }
        } else {
            assert(cur == prev);
        }
    }
}

impl NotificationDb {
    /// Forgets everything about a group: its settings, its title and
    /// text, and which tasks belong to it.
    #[verifier::rlimit(50)]
    pub fn clear_group_info(&mut self, group_id: u32)
        requires
            old(self).wf(),
        ensures
            final(self).wf(),
            forall|task: u32|
                (#[trigger] row_of(final(self).group_notification(), task)) == (if row_of(
                    old(self).group_notification(),
                    task,
                ) == Some(group_id) {
                    None
                } else {
                    row_of(old(self).group_notification(), task)
                }),
            final(self).group_content() == (if key_index(old(self).group_content(), group_id)
                < old(self).group_content().len() {
                old(self).group_content().remove(key_index(old(self).group_content(), group_id))
            } else {
                old(self).group_content()
            }),
            final(self).group_config() == (if key_index(old(self).group_config(), group_id) < old(self).group_config().len() {
                old(self).group_config().remove(key_index(old(self).group_config(), group_id))
            } else {
                old(self).group_config()
            }),
            final(self).task_config() == old(self).task_config(),
            final(self).task_content() == old(self).task_content(),
    {
        let members = self.query_group_tasks(group_id);
        let ghost before = self.group_notification@;
        proof {
            lemma_tasks_of_group(before, before.len() as int, group_id);
        }
        clear_members(&mut self.group_notification, &members, group_id);
        proof {
            assert forall|task: u32|
                (#[trigger] row_of(self.group_notification@, task)) == (if row_of(before, task)
                    == Some(group_id) {
                    None
                } else {
                    row_of(before, task)
                }) by {
                if row_of(before, task) == Some(group_id) {
                    lemma_key_index(before, task);
                    let i = key_index(before, task);
                    assert(before[i].1 == group_id);
                    assert(members@.contains(before[i].0));
                } else if members@.contains(task) {
                    let k = choose|k: int| 0 <= k < members@.len() && members@[k] == task;
                    assert(row_of(before, members@[k]) == Some(group_id));
                }
            }
        }
        let _ = self.group_content.delete(group_id);
        let _ = self.group_config.delete(group_id);
    }

    fn count_members(&self, group_id: u32) -> (n: usize)
        ensures
            n == tasks_of_group(
                self.group_notification(),
                self.group_notification().len() as int,
                group_id,
            ).len(),
    {
        self.query_group_tasks(group_id).len()
    }

    /// Whether the settings of a group are to be cleared at `now`.
    pub open spec fn spec_overdue(&self, group_id: u32, now: u64) -> bool {
        match row_of(self.group_config(), group_id) {
            Some(config) => overdue(
                config,
                tasks_of_group(
                    self.group_notification(),
                    self.group_notification().len() as int,
                    group_id,
                ).len(),
                now,
            ),
            None => false,
        }
    }

    /// How many of the first `n` groups with settings are to be cleared at
    /// `now`.
    pub open spec fn overdue_groups(&self, n: int, now: u64) -> int
        decreases n,
    {
        if n <= 0 {
            0
        } else {
            self.overdue_groups(n - 1, now) + if self.spec_overdue(
                self.group_config()[n - 1].0,
                now,
            ) {
                1int
            } else {
                0int
            }
        }
    }

    /// Forgets, at `now`, the settings and the title and text of every
    /// group whose settings are older than a week and to which no task
    /// belongs. Returns how many groups were cleared.
    #[verifier::rlimit(50)]
    pub fn clear_group_info_a_week_ago(&mut self, now: u64) -> (cleared: usize)
        requires
            old(self).wf(),
        ensures
            final(self).wf(),
            cleared == old(self).overdue_groups(old(self).group_config().len() as int, now),
            final(self).group_notification() == old(self).group_notification(),
            final(self).task_config() == old(self).task_config(),
            final(self).task_content() == old(self).task_content(),
            forall|g: u32|
                (#[trigger] row_of(final(self).group_config(), g)) == (if old(self).spec_overdue(
                    g,
                    now,
                ) {
                    None
                } else {
                    row_of(old(self).group_config(), g)
                }),
            forall|g: u32|
                (#[trigger] row_of(final(self).group_content(), g)) == (if old(self).spec_overdue(
                    g,
                    now,
                ) {
                    None
                } else {
                    row_of(old(self).group_content(), g)
                }),
    {
        let threshold: u64 = if now >= MILLIS_IN_A_WEEK {
            now - MILLIS_IN_A_WEEK
        } else {
            0
        };
        let mut due: Vec<u32> = Vec::new();
        let mut i: usize = 0;
        let ghost configs = self.group_config@;
        while i < self.group_config.len()
            invariant
                i <= self.group_config@.len(),
                old(self).wf(),
                *self == *old(self),
                configs == self.group_config@,
                threshold == (if now >= MILLIS_IN_A_WEEK {
                    now - MILLIS_IN_A_WEEK
                } else {
                    0
                }),
                due@.len() == old(self).overdue_groups(i as int, now),
                due@.len() <= i,
                forall|k: int| 0 <= k < due@.len() ==> old(self).spec_overdue(#[trigger] due@[k], now),
                forall|x: int|
                    0 <= x < i && old(self).spec_overdue((#[trigger] configs[x]).0, now)
                        ==> due@.contains(configs[x].0),
            decreases self.group_config@.len() - i,
        {
            let row = *self.group_config.row(i);
            proof {
                lemma_row_found(configs, i as int);
            }
            let ghost before_due = due@;
            if row.1.ctime < threshold && self.count_members(row.0) == 0 {
                due.push(row.0);
                proof {
                    assert(due@[due@.len() - 1] == row.0);
                }
            }
            proof {
                assert forall|x: int|
                    0 <= x < i + 1 && old(self).spec_overdue(
                        (#[trigger] configs[x]).0,
                        now,
                    ) implies due@.contains(configs[x].0) by {
                    if x < i {
                        assert(before_due.contains(configs[x].0));
                        let k = choose|k: int|
                            0 <= k < before_due.len() && before_due[k] == configs[x].0;
                        assert(due@[k] == configs[x].0);
                    }
                }
            }
            i = i + 1;
        }
        proof {
            assert forall|g: u32| old(self).spec_overdue(g, now) implies due@.contains(g) by {
                lemma_key_index(configs, g);
                let x = key_index(configs, g);
                assert(configs[x].0 == g);
            }
        }
        drop_rows(&mut self.group_config, &due);
        drop_rows(&mut self.group_content, &due);
        due.len()
    }
}

fn clear_members(table: &mut Table<u32>, members: &Vec<u32>, group_id: u32)
    requires
        old(table).wf(),
    ensures
        final(table).wf(),
        forall|task: u32|
            (#[trigger] row_of(final(table)@, task)) == (if members@.contains(task) {
                None
            } else {
                row_of(old(table)@, task)
            }),
{
    drop_rows(table, members);
}

/// Takes the rows of the keys out of a table.
#[verifier::rlimit(50)]
pub fn drop_rows<V>(table: &mut Table<V>, keys: &Vec<u32>)
    requires
        old(table).wf(),
    ensures
        final(table).wf(),
        forall|g: u32|
            (#[trigger] row_of(final(table)@, g)) == (if keys@.contains(g) {
                None
            } else {
                row_of(old(table)@, g)
            }),
{
    let ghost before = table@;
    let mut i: usize = 0;
    while i < keys.len()
        invariant
            i <= keys@.len(),
            table.wf(),
            forall|g: u32|
                (#[trigger] row_of(table@, g)) == (if keys@.take(i as int).contains(g) {
                    None
                } else {
                    row_of(before, g)
                }),
        decreases keys@.len() - i,
    {
        let ghost mid = table@;
        let _ = table.delete(keys[i]);
        proof {
            let key = keys@[i as int];
            let done = keys@.take(i as int);
            let next = keys@.take(i + 1);
            assert(next =~= done.push(key));
            assert forall|g: u32|
                (#[trigger] row_of(table@, g)) == (if next.contains(g) {
                    None
                } else {
                    row_of(before, g)
                }) by {
                if g == key {
                    assert(next[i as int] == key);
                    assert(table.spec_get(key).is_none());
                } else {
                    assert(table.spec_get(g) == row_of(mid, g));
                    if done.contains(g) {
                        let k = choose|k: int| 0 <= k < done.len() && done[k] == g;
                        assert(next[k] == g);
                    }
                    if next.contains(g) {
                        let k = choose|k: int| 0 <= k < next.len() && next[k] == g;
                        assert(done[k] == g);
                    }
                }
            }
        }
        i = i + 1;
    }
    proof {
        assert(keys@.take(i as int) =~= keys@);
    }
}

} // verus!
