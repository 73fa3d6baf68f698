//! What is kept of tasks between runs: one record for each task, with the
//! progress written down as texts.

use crate::config::{
    duplicate_file_specs, duplicate_form_items, file_specs_view, form_items_view, Action, Mode,
    TaskConfig, TaskConfigView, Version,
};
use crate::notify::statuses_view;
use crate::qos::TaskQosInfo;
use crate::error::ErrorCode;
use crate::info::{CommonTaskInfo, State, TaskInfo};
use crate::notification_bar::{drop_rows, lemma_row_found, row_of, Table, MILLIS_IN_A_WEEK};
use crate::progress::{sum, Progress, ProgressView};
use crate::reason::Reason;
use crate::request_task::{
    file_statuses, get_each_file_status_by_code, shown_mime_type, RequestTask, TaskStatus,
};
use crate::strmap::distinct_keys;
use crate::utils::{
    hashmap_to_string, lemma_naturals_round_trip, lemma_numbers_round_trip,
    lemma_pairs_round_trip, list_text, natural_items, naturals_to_string, number_items,
    numbers_to_string, pairs_text, parsed_naturals, parsed_numbers, parsed_pairs, plain_pair,
    string_to_hashmap, string_to_naturals, string_to_numbers,
};
use vstd::prelude::*;

verus! {

/// The progress of a task as it is written down: the state by its number,
/// and the sizes, the processed bytes and the extras as texts.
pub struct ProgressRecord {
    pub state: u8,
    pub index: usize,
    pub sizes: String,
    pub processed: String,
    pub extras: String,
}

pub struct ProgressRecordView {
    pub state: u8,
    pub index: usize,
    pub sizes: Seq<char>,
    pub processed: Seq<char>,
    pub extras: Seq<char>,
}

impl View for ProgressRecord {
    type V = ProgressRecordView;

    open spec fn view(&self) -> ProgressRecordView {
        ProgressRecordView {
            state: self.state,
            index: self.index,
            sizes: self.sizes@,
            processed: self.processed@,
            extras: self.extras@,
        }
    }
}

/// A progress as it is written down.
pub open spec fn recorded(p: ProgressView) -> ProgressRecordView {
    ProgressRecordView {
        state: p.state.spec_repr(),
        index: p.index,
        sizes: list_text(number_items(p.sizes)),
        processed: list_text(natural_items(p.processed)),
        extras: pairs_text(p.extras),
    }
}

/// The progress that a record stands for, if its texts can be read and
/// fit each other: there is a size for each file, and the bytes processed
/// have a sum. The total is that sum.
pub open spec fn restored(r: ProgressRecordView) -> Option<ProgressView> {
    match (parsed_numbers(r.sizes), parsed_naturals(r.processed), parsed_pairs(r.extras)) {
        (Some(sizes), Some(processed), Some(extras)) => if sizes.len() == processed.len() && sum(
            processed,
        ) <= usize::MAX {
            Some(
                ProgressView {
                    state: State::spec_from_u8(r.state),
                    index: r.index,
                    total_processed: sum(processed) as usize,
                    sizes,
                    processed,
                    extras,
                },
            )
        } else {
            None
        },
        _ => None,
    }
}

/// Writes a progress down.
pub fn write_progress(p: &Progress) -> (r: ProgressRecord)
    ensures
        r@ == recorded(p@),
{
    ProgressRecord {
        state: p.state().repr(),
        index: p.index(),
        sizes: numbers_to_string(p.sizes()),
        processed: naturals_to_string(p.processed()),
        extras: hashmap_to_string(p.extras()),
    }
}

/// Reads a progress back.
pub fn read_progress(r: &ProgressRecord) -> (p: Option<Progress>)
    ensures
        p.is_some() == restored(r@).is_some(),
        p.is_some() ==> p.unwrap().wf() && p.unwrap()@ == restored(r@).unwrap(),
{
    let sizes = match string_to_numbers(r.sizes.as_str()) {
        Some(sizes) => sizes,
        None => {
            return None;
        },
    };
    let processed = match string_to_naturals(r.processed.as_str()) {
        Some(processed) => processed,
        None => {
            return None;
        },
    };
    let extras = match string_to_hashmap(r.extras.as_str()) {
        Some(extras) => extras,
        None => {
            return None;
        },
    };
    Progress::restore(State::from_u8(r.state), r.index, sizes, processed, extras)
}

/// Whether extras can be written down and read back: no key occurs twice
/// or holds a tab, and no key and no value holds the end of a line.
pub open spec fn plain_extras(extras: Seq<(Seq<char>, Seq<char>)>) -> bool {
    distinct_keys(extras) && forall|i: int| 0 <= i < extras.len() ==> plain_pair(#[trigger] extras[i])
}

/// A progress that is written down and read back is the same, provided
/// that its extras can be written plainly.
pub proof fn lemma_progress_round_trip(p: ProgressView)
    requires
        p.wf(),
        plain_extras(p.extras),
    ensures
        restored(recorded(p)) == Some(p),
{
    lemma_numbers_round_trip(p.sizes);
    lemma_naturals_round_trip(p.processed);
    lemma_pairs_round_trip(p.extras);
    crate::info::lemma_state_round_trip(p.state);
}

/// The progress of a task that is recorded and read back is the progress
/// that the task had, and so is its configuration, provided that the
/// extras of the progress can be written plainly.
pub proof fn lemma_task_round_trip(task: RequestTask)
    requires
        task.progress.wf(),
        plain_extras(task.progress@.extras),
    ensures
        restored(record_of(task).progress) == Some(task.progress@),
        record_of(task).config == task.conf@,
{
    lemma_progress_round_trip(task.progress@);
}

/// What is shown of a task from the record that was made of it is what
/// the task had when it was recorded: the progress and the plain values,
/// provided that the extras of the progress can be written plainly.
pub proof fn lemma_kept_info(task: RequestTask, record: TaskRecord, info: TaskInfo)
    requires
        task.progress.wf(),
        plain_extras(task.progress@.extras),
        record@ == record_of(task),
        shows(info, record),
    ensures
        info.progress@ == task.progress@,
        info.common_data == common_info(task),
        info.url@ == task.conf.url@,
        file_specs_view(info.file_specs@) == file_specs_view(task.conf.file_specs@),
{
    lemma_progress_round_trip(task.progress@);
}

/// What is kept of a task: its configuration, what is shown of it, its
/// progress as it is written down, and the outcome of each file.
pub struct TaskRecord {
    pub config: TaskConfig,
    pub common_data: CommonTaskInfo,
    pub mime_type: String,
    pub progress: ProgressRecord,
    pub codes: Vec<Reason>,
}

pub struct TaskRecordView {
    pub config: TaskConfigView,
    pub common_data: CommonTaskInfo,
    pub mime_type: Seq<char>,
    pub progress: ProgressRecordView,
    pub codes: Seq<Reason>,
}

impl View for TaskRecord {
    type V = TaskRecordView;

    open spec fn view(&self) -> TaskRecordView {
        TaskRecordView {
            config: self.config@,
            common_data: self.common_data,
            mime_type: self.mime_type@,
            progress: self.progress@,
            codes: self.codes@,
        }
    }
}

/// The plain values that are shown of a task. A foreground task is never
/// shown as one that retries.
pub open spec fn common_info(task: RequestTask) -> CommonTaskInfo {
    CommonTaskInfo {
        task_id: task.conf.common_data.task_id,
        uid: task.conf.common_data.uid,
        action: task.conf.common_data.action.spec_repr(),
        mode: task.conf.common_data.mode.spec_repr(),
        ctime: task.ctime,
        mtime: task.status.mtime,
        reason: task.status.reason.spec_repr(),
        gauge: task.conf.common_data.gauge,
        retry: task.conf.common_data.mode != Mode::FrontEnd && task.conf.common_data.retry,
        tries: task.tries,
        version: task.conf.version.spec_repr(),
        priority: task.conf.common_data.priority,
    }
}

/// What is kept of a task.
pub open spec fn record_of(task: RequestTask) -> TaskRecordView {
    TaskRecordView {
        config: task.conf@,
        common_data: common_info(task),
        mime_type: shown_mime_type(
            task.conf.version,
            task.conf.common_data.action,
            task.conf.headers@,
            task.mime_type@,
        ),
        progress: recorded(task.progress@),
        codes: task.code@,
    }
}

fn copy_codes(codes: &Vec<Reason>) -> (r: Vec<Reason>)
    ensures
        r@ == codes@,
{
    let mut r: Vec<Reason> = Vec::new();
    let mut i: usize = 0;
    while i < codes.len()
        invariant
            i <= codes@.len(),
            r@ == codes@.take(i as int),
        decreases codes@.len() - i,
    {
        r.push(codes[i]);
        proof {
            assert(r@ =~= codes@.take(i + 1));
        }
        i = i + 1;
    }
    proof {
        assert(codes@.take(i as int) =~= codes@);
    }
    r
}

fn make_record(task: &RequestTask) -> (r: TaskRecord)
    ensures
        r@ == record_of(*task),
{
    let mime_type = match task.conf.version {
        Version::API10 => match task.conf.common_data.action {
            Action::Download => match task.conf.headers.get("Content-Type") {
                None => String::new(),
                Some(v) => v.clone(),
            },
            Action::Upload => "multipart/form-data".to_owned(),
            Action::Any => String::new(),
        },
        Version::API9 => task.mime_type.clone(),
    };
    TaskRecord {
        config: task.conf.duplicate(),
        common_data: CommonTaskInfo {
            task_id: task.conf.common_data.task_id,
            uid: task.conf.common_data.uid,
            action: task.conf.common_data.action.repr(),
            mode: task.conf.common_data.mode.repr(),
            ctime: task.ctime,
            mtime: task.status.mtime,
            reason: task.status.reason.repr(),
            gauge: task.conf.common_data.gauge,
            retry: match task.conf.common_data.mode {
                Mode::FrontEnd => false,
                _ => task.conf.common_data.retry,
            },
            tries: task.tries,
            version: task.conf.version.repr(),
            priority: task.conf.common_data.priority,
        },
        mime_type,
        progress: write_progress(&task.progress),
        codes: copy_codes(&task.code),
    }
}

/// The record of every task, each under the id of the task.
pub struct Database {
    records: Table<TaskRecord>,
}

/// Whether a record is that of a task that is over.
pub open spec fn is_over(r: TaskRecordView) -> bool {
    State::spec_from_u8(r.progress.state).spec_is_terminal()
}

/// Whether a record is purged at `now`: the task is over, and the record
/// was changed last more than a week ago.
pub open spec fn is_early(r: TaskRecordView, now: u64) -> bool {
    is_over(r) && r.common_data.mtime < now - MILLIS_IN_A_WEEK
}

/// How many of the first `n` records are purged at `now`.
pub open spec fn early_records(rows: Seq<(u32, TaskRecord)>, n: int, now: u64) -> int
    decreases n,
{
    if n <= 0 {
        0
    } else {
        early_records(rows, n - 1, now) + if is_early(rows[n - 1].1@, now) {
            1int
        } else {
            0int
        }
    }
}

/// How many of the first `n` records are those of tasks of the
/// application in the mode that are not over.
pub open spec fn uncompleted(rows: Seq<(u32, TaskRecord)>, n: int, uid: u64, mode: u8) -> int
    decreases n,
{
    if n <= 0 {
        0
    } else {
        uncompleted(rows, n - 1, uid, mode) + if rows[n - 1].1@.common_data.uid == uid
            && rows[n - 1].1@.common_data.mode == mode && !is_over(rows[n - 1].1@) {
            1int
        } else {
            0int
        }
    }
}

/// What the scheduler looks at of a record.
pub open spec fn qos_of_record(r: TaskRecordView) -> TaskQosInfo {
    TaskQosInfo {
        uid: r.common_data.uid,
        task_id: r.common_data.task_id,
        action: Action::spec_from_u8(r.common_data.action),
        mode: Mode::spec_from_u8(r.common_data.mode),
        state: State::spec_from_u8(r.progress.state),
        priority: r.common_data.priority,
        ctime: r.common_data.ctime,
        network: r.config.common_data.network_config,
        metered: r.config.common_data.metered,
        roaming: r.config.common_data.roaming,
    }
}

/// What is shown of a task of which `r` is kept, where its progress can
/// be read back.
pub open spec fn shows(info: TaskInfo, r: TaskRecord) -> bool {
    &&& info.bundle@ == r.config.bundle@
    &&& info.url@ == r.config.url@
    &&& info.data@ == r.config.data@
    &&& info.token@ == r.config.token@
    &&& form_items_view(info.form_items@) == form_items_view(r.config.form_items@)
    &&& file_specs_view(info.file_specs@) == file_specs_view(r.config.file_specs@)
    &&& info.title@ == r.config.title@
    &&& info.description@ == r.config.description@
    &&& info.mime_type@ == r.mime_type@
    &&& info.progress.wf()
    &&& Some(info.progress@) == restored(r.progress@)
    &&& statuses_view(info.each_file_status@) == file_statuses(r.codes@, r.config.file_specs@)
    &&& info.common_data == r.common_data
}

impl Database {
    /// The records, each with the id of its task.
    pub closed spec fn rows(&self) -> Seq<(u32, TaskRecord)> {
        self.records@
    }

    /// The invariant: no task has two records.
    pub closed spec fn wf(&self) -> bool {
        self.records.wf()
    }

    /// The record of task `task_id`.
    pub open spec fn record(&self, task_id: u32) -> Option<TaskRecord> {
        row_of(self.rows(), task_id)
    }

    /// No records.
    pub fn new() -> (db: Database)
        ensures
            db.wf(),
            db.rows() == Seq::<(u32, TaskRecord)>::empty(),
    {
        Database { records: Table::new() }
    }

    /// Whether there is a record of task `task_id`.
    pub fn contains_task(&self, task_id: u32) -> (b: bool)
        ensures
            b == self.record(task_id).is_some(),
    {
        self.records.contains(task_id)
    }

    /// Records a task, unless there is a record of it.
    pub fn insert_task(&mut self, task: &RequestTask)
        requires
            old(self).wf(),
        ensures
            final(self).wf(),
            old(self).record(task.conf.common_data.task_id).is_some() ==> final(self).rows()
                == old(self).rows(),
            old(self).record(task.conf.common_data.task_id).is_none() ==> {
                &&& final(self).rows().len() == old(self).rows().len() + 1
                &&& final(self).rows().drop_last() == old(self).rows()
                &&& final(self).rows().last().0 == task.conf.common_data.task_id
                &&& final(self).rows().last().1@ == record_of(*task)
                &&& final(self).record(task.conf.common_data.task_id).unwrap()@ == record_of(
                    *task,
                )
            },
            forall|other: u32|
                other != task.conf.common_data.task_id ==> (#[trigger] final(self).record(other))
                    == old(self).record(other),
    {
        let task_id = task.conf.common_data.task_id;
        if self.records.contains(task_id) {
            return ;
        }
        let record = make_record(task);
        self.records.upsert(task_id, record);
        proof {
            assert(self.records.spec_get(task_id) == Some(record));
            assert(self.rows().drop_last() =~= old(self).rows());
            assert forall|other: u32| other != task_id implies (#[trigger] self.record(other))
                == old(self).record(other) by {
                assert(self.records.spec_get(other) == old(self).records.spec_get(other));
            }
        }
    }

    /// Writes what is kept of a task anew, but for its configuration.
    /// Nothing is done where there is no record of the task.
    pub fn update_task(&mut self, task: &RequestTask)
        requires
            old(self).wf(),
        ensures
            final(self).wf(),
            final(self).rows().len() == old(self).rows().len(),
            match old(self).record(task.conf.common_data.task_id) {
                None => final(self).rows() == old(self).rows(),
                Some(before) => final(self).record(task.conf.common_data.task_id).is_some()
                    && final(self).record(task.conf.common_data.task_id).unwrap()@ == (
                TaskRecordView { config: before@.config, ..record_of(*task) }),
            },
            forall|other: u32|
                other != task.conf.common_data.task_id ==> (#[trigger] final(self).record(other))
                    == old(self).record(other),
    {
        let task_id = task.conf.common_data.task_id;
        let config = match self.records.get(task_id) {
            Some(record) => record.config.duplicate(),
            None => {
                return ;
            },
        };
        let fresh = make_record(task);
        let record = TaskRecord {
            config,
            common_data: fresh.common_data,
            mime_type: fresh.mime_type,
            progress: fresh.progress,
            codes: fresh.codes,
        };
        proof {
            crate::lru::lemma_key_index(self.records@, task_id);
        }
        self.records.upsert(task_id, record);
        proof {
            assert(self.records.spec_get(task_id) == Some(record));
            assert forall|other: u32| other != task_id implies (#[trigger] self.record(other))
                == old(self).record(other) by {
                assert(self.records.spec_get(other) == old(self).records.spec_get(other));
            }
        }
    }

    /// The configuration of task `task_id`.
    pub fn get_task_config(&self, task_id: u32) -> (c: Option<TaskConfig>)
        ensures
            c.is_some() == self.record(task_id).is_some(),
            c.is_some() ==> c.unwrap()@ == self.record(task_id).unwrap()@.config,
    {
        match self.records.get(task_id) {
            Some(record) => Some(record.config.duplicate()),
            None => None,
        }
    }

    /// What is shown of task `task_id`: nothing where there is no record
    /// of it or its progress cannot be read back.
    pub fn get_task_info(&self, task_id: u32) -> (i: Option<TaskInfo>)
        ensures
            i.is_some() == (self.record(task_id).is_some() && restored(
                self.record(task_id).unwrap()@.progress,
            ).is_some()),
            i.is_some() ==> shows(i.unwrap(), self.record(task_id).unwrap()),
    {
        let record = match self.records.get(task_id) {
            Some(record) => record,
            None => {
                return None;
            },
        };
        let progress = match read_progress(&record.progress) {
            Some(progress) => progress,
            None => {
                return None;
            },
        };
        Some(
            TaskInfo {
                bundle: record.config.bundle.clone(),
                url: record.config.url.clone(),
                data: record.config.data.clone(),
                token: record.config.token.clone(),
                form_items: duplicate_form_items(&record.config.form_items),
                file_specs: duplicate_file_specs(&record.config.file_specs),
                title: record.config.title.clone(),
                description: record.config.description.clone(),
                mime_type: record.mime_type.clone(),
                progress,
                each_file_status: get_each_file_status_by_code(
                    &record.codes,
                    &record.config.file_specs,
                ),
                common_data: record.common_data,
            },
        )
    }

    /// The owner of task `task_id`.
    pub fn query_task_uid(&self, task_id: u32) -> (uid: Option<u64>)
        ensures
            uid == (match self.record(task_id) {
                Some(r) => Some(r@.common_data.uid),
                None => None,
            }),
    {
        match self.records.get(task_id) {
            Some(record) => Some(record.common_data.uid),
            None => None,
        }
    }

    /// What the scheduler looks at of task `task_id`, if it is a task of
    /// the application `uid`.
    pub fn get_task_qos_info(&self, uid: u64, task_id: u32) -> (q: Option<TaskQosInfo>)
        ensures
            q == (match self.record(task_id) {
                Some(r) => if r@.common_data.uid == uid {
                    Some(qos_of_record(r@))
                } else {
                    None
                },
                None => None,
            }),
    {
        match self.records.get(task_id) {
            Some(record) => {
                if record.common_data.uid == uid {
                    Some(qos_info(record))
                } else {
                    None
                }
            },
            None => None,
        }
    }

    /// How many tasks of the application in the mode are not over.
    pub fn app_uncompleted_tasks_num(&self, uid: u64, mode: Mode) -> (n: usize)
        ensures
            n == uncompleted(self.rows(), self.rows().len() as int, uid, mode.spec_repr()),
    {
        let mode = mode.repr();
        let mut n: usize = 0;
        let mut i: usize = 0;
        while i < self.records.len()
            invariant
                i <= self.rows().len(),
                n <= i,
                n == uncompleted(self.rows(), i as int, uid, mode),
            decreases self.rows().len() - i,
        {
            let row = self.records.row(i);
            if row.1.common_data.uid == uid && row.1.common_data.mode == mode && !State::from_u8(
                row.1.progress.state,
            ).is_terminal() {
                n = n + 1;
            }
            i = i + 1;
        }
        n
    }
}

/// What the scheduler looks at of those of the first `n` records that are
/// records of tasks of the application, in order.
pub open spec fn qos_infos(rows: Seq<(u32, TaskRecord)>, n: int, uid: u64) -> Seq<TaskQosInfo>
    decreases n,
{
    if n <= 0 {
        Seq::empty()
    } else if rows[n - 1].1@.common_data.uid == uid {
        qos_infos(rows, n - 1, uid).push(qos_of_record(rows[n - 1].1@))
    } else {
        qos_infos(rows, n - 1, uid)
    }
}

/// A record after the state of its task changed.
pub open spec fn with_state(r: TaskRecordView, state: State, reason: Reason, mtime: u64) -> TaskRecordView {
    TaskRecordView {
        common_data: CommonTaskInfo { mtime, reason: reason.spec_repr(), ..r.common_data },
        progress: ProgressRecordView { state: state.spec_repr(), ..r.progress },
        ..r
    }
}

/// What taking up task `task_id` again comes to: a task without a record
/// whose progress can be read is not found, a task that was removed is
/// not taken up, and a task without a definite action is refused.
pub open spec fn taken_up(record: Option<TaskRecord>) -> Result<ProgressView, ErrorCode> {
    match record {
        None => Err(ErrorCode::TaskNotFound),
        Some(r) => match restored(r@.progress) {
            None => Err(ErrorCode::TaskNotFound),
            Some(p) => if p.state == State::Removed {
                Err(ErrorCode::TaskStateErr)
            } else if r.config.common_data.action == Action::Any {
                Err(ErrorCode::ParameterCheck)
            } else {
                Ok(p)
            },
        },
    }
}

impl Database {
    /// What the scheduler looks at of the tasks of the application `uid`.
    pub fn get_app_task_qos_infos(&self, uid: u64) -> (v: Vec<TaskQosInfo>)
        ensures
            v@ == qos_infos(self.rows(), self.rows().len() as int, uid),
    {
        let mut v: Vec<TaskQosInfo> = Vec::new();
        let mut i: usize = 0;
        while i < self.records.len()
            invariant
                i <= self.rows().len(),
                v@ == qos_infos(self.rows(), i as int, uid),
            decreases self.rows().len() - i,
        {
            let row = self.records.row(i);
            if row.1.common_data.uid == uid {
                v.push(qos_info(&row.1));
            }
            i = i + 1;
        }
        v
    }

    /// Notes the state of task `task_id`, the cause, and the time of the
    /// change. Returns whether there is a record of the task.
    pub fn update_task_state(&mut self, task_id: u32, state: State, reason: Reason, mtime: u64) -> (done:
        bool)
        requires
            old(self).wf(),
        ensures
            final(self).wf(),
            final(self).rows().len() == old(self).rows().len(),
            done == old(self).record(task_id).is_some(),
            match old(self).record(task_id) {
                None => final(self).rows() == old(self).rows(),
                Some(before) => final(self).record(task_id).is_some() && final(self).record(
                    task_id,
                ).unwrap()@ == with_state(before@, state, reason, mtime),
            },
            forall|other: u32|
                other != task_id ==> (#[trigger] final(self).record(other)) == old(self).record(
                    other,
                ),
    {
        let record = match self.records.get(task_id) {
            Some(before) => TaskRecord {
                config: before.config.duplicate(),
                common_data: CommonTaskInfo {
                    task_id: before.common_data.task_id,
                    uid: before.common_data.uid,
                    action: before.common_data.action,
                    mode: before.common_data.mode,
                    ctime: before.common_data.ctime,
                    mtime,
                    reason: reason.repr(),
                    gauge: before.common_data.gauge,
                    retry: before.common_data.retry,
                    tries: before.common_data.tries,
                    version: before.common_data.version,
                    priority: before.common_data.priority,
                },
                mime_type: before.mime_type.clone(),
                progress: ProgressRecord {
                    state: state.repr(),
                    index: before.progress.index,
                    sizes: before.progress.sizes.clone(),
                    processed: before.progress.processed.clone(),
                    extras: before.progress.extras.clone(),
                },
                codes: copy_codes(&before.codes),
            },
            None => {
                return false;
            },
        };
        proof {
            crate::lru::lemma_key_index(self.records@, task_id);
        }
        self.records.upsert(task_id, record);
        proof {
            assert(self.records.spec_get(task_id) == Some(record));
            assert forall|other: u32| other != task_id implies (#[trigger] self.record(other))
                == old(self).record(other) by {
                assert(self.records.spec_get(other) == old(self).records.spec_get(other));
            }
        }
        true
    }

    /// Takes up task `task_id` again at `time` from what is kept of it.
    /// `sizes` are the sizes of its files as they are now.
    pub fn get_task(&self, task_id: u32, sizes: Vec<i64>, time: u64) -> (r: Result<
        RequestTask,
        ErrorCode,
    >)
        ensures
            match taken_up(self.record(task_id)) {
                Err(code) => r == Err::<RequestTask, ErrorCode>(code),
                Ok(p) => {
                    let kept = self.record(task_id).unwrap();
                    &&& r.is_ok()
                    &&& r.unwrap().wf()
                    &&& r.unwrap().conf@ == kept.config@
                    &&& r.unwrap().progress@ == p
                    &&& r.unwrap().ctime == kept.common_data.ctime
                    &&& r.unwrap().mime_type@ == kept.mime_type@
                    &&& r.unwrap().tries == kept.common_data.tries
                    &&& r.unwrap().retry == kept.common_data.retry
                    &&& r.unwrap().status == (TaskStatus {
                        waiting_network_time: None,
                        mtime: time,
                        state: p.state,
                        reason: Reason::spec_from_u8(kept.common_data.reason),
                    })
                },
            },
    {
        let config = match self.get_task_config(task_id) {
            Some(config) => config,
            None => {
                return Err(ErrorCode::TaskNotFound);
            },
        };
        let info = match self.get_task_info(task_id) {
            Some(info) => info,
            None => {
                return Err(ErrorCode::TaskNotFound);
            },
        };
        if info.progress.state() == State::Removed {
            return Err(ErrorCode::TaskStateErr);
        }
        if config.common_data.action == Action::Any {
            return Err(ErrorCode::ParameterCheck);
        }
        Ok(RequestTask::new_by_info(config, sizes, info, time))
    }

    /// Purges, at `now`, the records of the tasks that are over and were
    /// changed last more than a week ago. Returns how many were purged.
    #[verifier::rlimit(50)]
    pub fn delete_early_records(&mut self, now: u64) -> (purged: usize)
        requires
            old(self).wf(),
        ensures
            final(self).wf(),
            purged == early_records(old(self).rows(), old(self).rows().len() as int, now),
            forall|id: u32|
                (#[trigger] final(self).record(id)) == (match old(self).record(id) {
                    Some(r) => if is_early(r@, now) {
                        None
                    } else {
                        Some(r)
                    },
                    None => None,
                }),
    {
        let threshold: u64 = if now >= MILLIS_IN_A_WEEK {
            now - MILLIS_IN_A_WEEK
        } else {
            0
        };
        let mut due: Vec<u32> = Vec::new();
        let mut i: usize = 0;
        let ghost rows = self.records@;
        while i < self.records.len()
            invariant
                i <= rows.len(),
                old(self).wf(),
                *self == *old(self),
                rows == self.records@,
                threshold == (if now >= MILLIS_IN_A_WEEK {
                    now - MILLIS_IN_A_WEEK
                } else {
                    0
                }),
                due@.len() == early_records(rows, i as int, now),
                due@.len() <= i,
                forall|k: int|
                    0 <= k < due@.len() ==> match row_of(rows, #[trigger] due@[k]) {
                        Some(r) => is_early(r@, now),
                        None => false,
                    },
                forall|x: int|
                    0 <= x < i && is_early((#[trigger] rows[x]).1@, now) ==> due@.contains(
                        rows[x].0,
                    ),
            decreases rows.len() - i,
        {
            let row = self.records.row(i);
            proof {
                lemma_row_found(rows, i as int);
            }
            let ghost before_due = due@;
            if State::from_u8(row.1.progress.state).is_terminal() && row.1.common_data.mtime
                < threshold {
                due.push(row.0);
                proof {
                    assert(due@[due@.len() - 1] == row.0);
                }
            }
            proof {
                assert forall|x: int|
                    0 <= x < i + 1 && is_early((#[trigger] rows[x]).1@, now) implies due@.contains(
                    rows[x].0,
                ) by {
                    if x < i {
                        assert(before_due.contains(rows[x].0));
                        let k = choose|k: int|
                            0 <= k < before_due.len() && before_due[k] == rows[x].0;
                        assert(due@[k] == rows[x].0);
                    }
                }
            }
            i = i + 1;
        }
        proof {
            assert forall|id: u32|
                (match row_of(rows, id) {
                    Some(r) => is_early(r@, now),
                    None => false,
                }) == due@.contains(id) by {
                crate::lru::lemma_key_index(rows, id);
                let x = crate::lru::key_index(rows, id);
                if x < rows.len() {
                    assert(rows[x].0 == id);
                }
                if due@.contains(id) {
                    let k = choose|k: int| 0 <= k < due@.len() && due@[k] == id;
                    assert(due@[k] == id);
                }
            }
        }
        drop_rows(&mut self.records, &due);
        due.len()
    }
}

fn qos_info(record: &TaskRecord) -> (q: TaskQosInfo)
    ensures
        q == qos_of_record(record@),
{
    TaskQosInfo {
        uid: record.common_data.uid,
        task_id: record.common_data.task_id,
        action: Action::from_u8(record.common_data.action),
        mode: Mode::from_u8(record.common_data.mode),
        state: State::from_u8(record.progress.state),
        priority: record.common_data.priority,
        ctime: record.common_data.ctime,
        network: record.config.common_data.network_config,
        metered: record.config.common_data.metered,
        roaming: record.config.common_data.roaming,
    }
}

} // verus!
