//! A task while it is held in memory: its configuration, status and
//! progress, and the decisions that every transfer shares.

use crate::config::{Action, FileSpec, Mode, TaskConfig, Version};
use crate::error::ErrorCode;
use crate::config::{duplicate_file_specs, duplicate_form_items, file_specs_view, form_items_view};
use crate::info::{CommonTaskInfo, State, TaskInfo};
use crate::notify::{statuses_view, EachFileStatus, EachFileStatusView, NotifyData};
use crate::progress::{Progress, ProgressView};
use crate::reason::Reason;
use crate::strmap::{lookup, StringMap};
use crate::text::{starts_with, u64_to_string, append_decimal, append_signed_decimal, decimal, signed_decimal, uppercase_of, to_uppercase};
use vstd::prelude::*;
use vstd::string::StringSliceAdditionalSpecFns;

verus! {

/// Why an attempt ended without finishing the transfer.
#[derive(Debug, PartialEq, Eq, Structural, Clone, Copy)]
pub enum TaskPhase {
    NeedRetry,
    UserAbort,
    NetworkOffline,
}

/// How an attempt ended when it did not finish the transfer: for good, or
/// for now.
#[derive(Debug, PartialEq, Eq, Structural, Clone, Copy)]
pub enum TaskError {
    Failed(Reason),
    Waiting(TaskPhase),
}

/// The state of a task with its cause and times, in milliseconds.
#[derive(Clone, Copy, Debug)]
pub struct TaskStatus {
    pub waiting_network_time: Option<u64>,
    pub mtime: u64,
    pub state: State,
    pub reason: Reason,
}

impl TaskStatus {
    /// The status of a task that was just made.
    pub fn new(mtime: u64) -> (s: TaskStatus)
        ensures
            s == (TaskStatus {
                waiting_network_time: None,
                mtime,
                state: State::Initialized,
                reason: Reason::Default,
            }),
    {
        TaskStatus {
            waiting_network_time: None,
            mtime,
            state: State::Initialized,
            reason: Reason::Default,
        }
    }
}

/// The status after a change to `state` at `time`: a task that starts to
/// wait notes when.
pub open spec fn status_after(old: TaskStatus, state: State, reason: Reason, time: u64) -> TaskStatus {
    TaskStatus {
        waiting_network_time: if state == State::Waiting {
            Some(time)
        } else {
            old.waiting_network_time
        },
        mtime: time,
        state,
        reason,
    }
}

/// The causes of the files after a status change at file `index`: a failure
/// marks the current file and all after it, anything else the current file
/// only, and a cause once set is kept.
pub open spec fn codes_after(codes: Seq<Reason>, index: int, state: State, reason: Reason) -> Seq<
    Reason,
> {
    Seq::new(
        codes.len(),
        |i: int|
            if codes[i] == Reason::Default && (if state == State::Failed {
                i >= index
            } else {
                i == index
            }) {
                reason
            } else {
                codes[i]
            },
    )
}

/// Whether a task may go from `from` to `to`: as the table says, and from
/// `Failed` to `Waiting` only where it downloads.
pub open spec fn transition_allowed(from: State, to: State, action: Action) -> bool {
    State::spec_check_change(from, to) && !(from == State::Failed && to == State::Waiting
        && action != Action::Download)
}

/// Whether a task may go from `from` to `to`.
pub fn check_transition(from: State, to: State, action: Action) -> (b: bool)
    ensures
        b == transition_allowed(from, to, action),
{
    State::check_change(from, to) && !(from == State::Failed && to == State::Waiting && action
        != Action::Download)
}

/// Sets the cause of file `index`, unless one is set and `is_force` is not
/// given. An index beyond the files changes nothing.
pub fn set_code(codes: &mut Vec<Reason>, index: usize, code: Reason, is_force: bool)
    ensures
        final(codes)@ == (if index < old(codes)@.len() && (is_force || old(codes)@[index as int]
            == Reason::Default) {
            old(codes)@.update(index as int, code)
        } else {
            old(codes)@
        }),
{
    if index < codes.len() {
        if is_force || codes[index] == Reason::Default {
            codes.set(index, code);
        }
    }
}

/// Notes the cause of a status change with the files it concerns.
pub fn mark_codes(codes: &mut Vec<Reason>, index: usize, state: State, reason: Reason)
    ensures
        final(codes)@ == codes_after(old(codes)@, index as int, state, reason),
{
    let ghost before = codes@;
    if state == State::Failed {
        let n = codes.len();
        let mut i: usize = index;
        while i < n
            invariant
                index <= i,
                n == before.len(),
                codes@.len() == n,
                forall|j: int| 0 <= j < n && (j < index || j >= i) ==> codes@[j] == before[j],
                forall|j: int|
                    index <= j < i && j < n ==> codes@[j] == (if before[j] == Reason::Default {
                        reason
                    } else {
                        before[j]
                    }),
            decreases n - i,
        {
            set_code(codes, i, reason, false);
            i = i + 1;
        }
    } else {
        set_code(codes, index, reason, false);
    }
    proof {
        assert(codes@ =~= codes_after(before, index as int, state, reason));
    }
}

/// The outcome of each file: its path, its cause and the message of the
/// cause; a file without a cause has the default one.
pub open spec fn file_statuses(codes: Seq<Reason>, file_specs: Seq<FileSpec>) -> Seq<
    EachFileStatusView,
> {
    Seq::new(
        file_specs.len(),
        |i: int|
            {
                let reason = if i < codes.len() {
                    codes[i]
                } else {
                    Reason::Default
                };
                EachFileStatusView {
                    path: file_specs[i].path@,
                    reason,
                    message: reason.spec_message(),
                }
            },
    )
}

/// The outcome of each file.
pub fn get_each_file_status_by_code(codes: &Vec<Reason>, file_specs: &Vec<FileSpec>) -> (v: Vec<
    EachFileStatus,
>)
    ensures
        statuses_view(v@) == file_statuses(codes@, file_specs@),
{
    let mut v: Vec<EachFileStatus> = Vec::new();
    let mut i: usize = 0;
    while i < file_specs.len()
        invariant
            i <= file_specs@.len(),
            v@.len() == i,
            forall|j: int|
                0 <= j < i ==> (#[trigger] v@[j])@ == file_statuses(codes@, file_specs@)[j],
        decreases file_specs@.len() - i,
    {
        let reason = if i < codes.len() {
            codes[i]
        } else {
            Reason::Default
        };
        v.push(
            EachFileStatus {
                path: file_specs[i].path.clone(),
                reason,
                message: reason.to_str().to_owned(),
            },
        );
        i = i + 1;
    }
    proof {
        assert(statuses_view(v@) =~= file_statuses(codes@, file_specs@));
    }
    v
}

/// The directories under which a file that is named by its path must lie.
pub open spec fn sandbox_el1() -> Seq<u8> {
    "/data/storage/el1/base/".spec_bytes()
}

pub open spec fn sandbox_el2() -> Seq<u8> {
    "/data/storage/el2/base/".spec_bytes()
}

/// Whether a path leads up: one of its components is `..`.
pub open spec fn goes_up(path: Seq<u8>) -> bool {
    crate::text::occurs_in(path, "/../".spec_bytes()) || "/..".spec_bytes().is_suffix_of(path)
}

/// Whether a path lies in the caller's sandbox: it begins with one of the
/// two directories and does not lead up out of it.
pub open spec fn in_sandbox(path: Seq<u8>) -> bool {
    (sandbox_el1().is_prefix_of(path) || sandbox_el2().is_prefix_of(path)) && !goes_up(path)
}

/// A file is acceptable if the caller opened it, or if its path lies in the
/// caller's sandbox.
pub open spec fn file_spec_ok(f: FileSpec) -> bool {
    f.is_user_file || in_sandbox(vstd::utf8::encode_utf8(f.path@))
}

/// Whether every file is acceptable.
pub fn check_file_specs(file_specs: &Vec<FileSpec>) -> (b: bool)
    ensures
        b == forall|i: int| 0 <= i < file_specs@.len() ==> file_spec_ok(#[trigger] file_specs@[i]),
{
    let mut i: usize = 0;
    while i < file_specs.len()
        invariant
            i <= file_specs@.len(),
            forall|j: int| 0 <= j < i ==> file_spec_ok(#[trigger] file_specs@[j]),
        decreases file_specs@.len() - i,
    {
        let spec = &file_specs[i];
        if !spec.is_user_file {
            let path = spec.path.as_str();
            let inside = starts_with(path, "/data/storage/el1/base/") || starts_with(
                path,
                "/data/storage/el2/base/",
            );
            let up = crate::text::contains(path, "/../") || crate::text::ends_with(path, "/..");
            if !inside || up {
                assert(!file_spec_ok(file_specs@[i as int]));
                return false;
            }
        }
        i = i + 1;
    }
    true
}

/// Whether the caller asked for a part of the resource.
pub open spec fn spec_require_range(begins: u64, ends: i64) -> bool {
    begins > 0 || ends >= 0
}

/// The value of the `Range` header: from `begins` to `ends`, or to the end
/// where `ends` is negative.
pub open spec fn range_value(begins: u64, ends: i64) -> Seq<char> {
    if ends < 0 {
        "bytes="@ + decimal(begins as nat) + "-"@
    } else {
        "bytes="@ + decimal(begins as nat) + "-"@ + decimal(ends as nat)
    }
}

/// The value of the `Range` header.
pub fn range_request(begins: u64, ends: i64) -> (r: String)
    ensures
        r@ == range_value(begins, ends),
{
    let mut r = "bytes=".to_owned();
    append_decimal(&mut r, begins);
    let ghost mid = r@;
    r = r.concat("-");
    if ends >= 0 {
        append_decimal(&mut r, ends as u64);
    }
    r
}

/// The validator to send as `If-Range`: the entity tag that the last
/// response carried, or else its modification date.
pub open spec fn range_validator(extras: Seq<(Seq<char>, Seq<char>)>) -> Option<Seq<char>> {
    if lookup(extras, "etag"@).is_some() {
        lookup(extras, "etag"@)
    } else {
        lookup(extras, "last-modified"@)
    }
}

/// The validator to send as `If-Range`, if the server is known to support
/// ranges.
pub fn support_range(extras: &StringMap) -> (v: Option<String>)
    ensures
        v.is_some() == range_validator(extras@).is_some(),
        v.is_some() ==> v.unwrap()@ == range_validator(extras@).unwrap(),
{
    match extras.get("etag") {
        Some(etag) => Some(etag.clone()),
        None => match extras.get("last-modified") {
            Some(last_modified) => Some(last_modified.clone()),
            None => None,
        },
    }
}

/// How a download asks for its bytes.
pub struct DownloadPlan {
    /// The `Range` header, if one is sent.
    pub range: Option<String>,
    /// The `If-Range` header, if one is sent.
    pub if_range: Option<String>,
    /// Whether the file is emptied first.
    pub clear_file: bool,
}

pub struct DownloadPlanView {
    pub range: Option<Seq<char>>,
    pub if_range: Option<Seq<char>>,
    pub clear_file: bool,
}

impl View for DownloadPlan {
    type V = DownloadPlanView;

    open spec fn view(&self) -> DownloadPlanView {
        DownloadPlanView {
            range: match self.range {
                Some(r) => Some(r@),
                None => None,
            },
            if_range: match self.if_range {
                Some(r) => Some(r@),
                None => None,
            },
            clear_file: self.clear_file,
        }
    }
}

/// What a download asks for, given the bytes that the file holds already,
/// the range that the caller wants and what the last response said:
///
/// - nothing held, no range wanted: the whole resource;
/// - nothing held, a range wanted: that range;
/// - bytes held and a validator known: the range behind the bytes held,
///   on condition that the resource has not changed;
/// - bytes held, no validator, no range wanted: the file is emptied and the
///   whole resource asked for;
/// - bytes held, no validator, a range wanted: the task fails, since the
///   server does not support ranges.
pub open spec fn download_plan(
    has_downloaded: u64,
    begins: u64,
    ends: i64,
    extras: Seq<(Seq<char>, Seq<char>)>,
) -> Result<DownloadPlanView, TaskError> {
    let resume = has_downloaded > 0;
    let wanted = spec_require_range(begins, ends);
    if !resume {
        if wanted {
            Ok(
                DownloadPlanView {
                    range: Some(range_value(begins, ends)),
                    if_range: None,
                    clear_file: false,
                },
            )
        } else {
            Ok(DownloadPlanView { range: None, if_range: None, clear_file: false })
        }
    } else if range_validator(extras).is_some() {
        Ok(
            DownloadPlanView {
                range: Some(range_value((begins + has_downloaded) as u64, ends)),
                if_range: range_validator(extras),
                clear_file: false,
            },
        )
    } else if wanted {
        Err(TaskError::Failed(Reason::UnsupportedRangeRequest))
    } else {
        Ok(DownloadPlanView { range: None, if_range: None, clear_file: true })
    }
}

/// What a download asks for. The first byte asked for must fit 64 bits.
pub fn plan_download_request(
    has_downloaded: u64,
    begins: u64,
    ends: i64,
    extras: &StringMap,
) -> (r: Result<DownloadPlan, TaskError>)
    requires
        begins + has_downloaded <= u64::MAX,
    ensures
        r.is_ok() == download_plan(has_downloaded, begins, ends, extras@).is_ok(),
        r.is_ok() ==> r.unwrap()@ == download_plan(has_downloaded, begins, ends, extras@).unwrap(),
        r.is_err() ==> r == Err::<DownloadPlan, TaskError>(
            TaskError::Failed(Reason::UnsupportedRangeRequest),
        ),
{
    let resume = has_downloaded > 0;
    let wanted = begins > 0 || ends >= 0;
    if !resume {
        if wanted {
            Ok(
                DownloadPlan {
                    range: Some(range_request(begins, ends)),
                    if_range: None,
                    clear_file: false,
                },
            )
        } else {
            Ok(DownloadPlan { range: None, if_range: None, clear_file: false })
        }
    } else {
        match support_range(extras) {
            Some(validator) => Ok(
                DownloadPlan {
                    range: Some(range_request(begins + has_downloaded, ends)),
                    if_range: Some(validator),
                    clear_file: false,
                },
            ),
            None => {
                if wanted {
                    Err(TaskError::Failed(Reason::UnsupportedRangeRequest))
                } else {
                    Ok(DownloadPlan { range: None, if_range: None, clear_file: true })
                }
            },
        }
    }
}

/// The method of the request, given the configured method in upper case: a
/// configured `PUT`, `POST` or `GET` is taken; else a download gets, and an
/// upload puts, or posts under the legacy version.
pub open spec fn method_for(upper: Seq<char>, action: Action, version: Version) -> Seq<char> {
    if upper == "PUT"@ {
        "PUT"@
    } else if upper == "POST"@ {
        "POST"@
    } else if upper == "GET"@ {
        "GET"@
    } else {
        match action {
            Action::Upload => if version == Version::API10 {
                "PUT"@
            } else {
                "POST"@
            },
            Action::Download => "GET"@,
            Action::Any => ""@,
        }
    }
}

/// The method of the request, given the configured method in upper case.
pub fn choose_method(upper: &str, action: Action, version: Version) -> (m: &'static str)
    ensures
        m@ == method_for(upper@, action, version),
{
    let upper = upper.to_owned();
    if upper == "PUT".to_owned() {
        "PUT"
    } else if upper == "POST".to_owned() {
        "POST"
    } else if upper == "GET".to_owned() {
        "GET"
    } else {
        match action {
            Action::Upload => {
                if version == Version::API10 {
                    "PUT"
                } else {
                    "POST"
                }
            },
            Action::Download => "GET",
            Action::Any => "",
        }
    }
}

/// The method of the request of a task.
pub fn request_method(config: &TaskConfig) -> (m: &'static str)
    ensures
        m@ == method_for(
            uppercase_of(config.method@),
            config.common_data.action,
            config.version,
        ),
{
    let upper = to_uppercase(config.method.as_str());
    choose_method(upper.as_str(), config.common_data.action, config.version)
}

/// What becomes of a task that cannot run because the network is missing or
/// of the wrong kind: it waits where the current version runs it in the
/// background with retries allowed, and fails everywhere else.
pub open spec fn network_verdict(version: Version, mode: Mode, retry: bool) -> State {
    if version == Version::API10 && mode == Mode::BackGround && retry {
        State::Waiting
    } else {
        State::Failed
    }
}

pub fn decide_network_verdict(version: Version, mode: Mode, retry: bool) -> (s: State)
    ensures
        s == network_verdict(version, mode, retry),
{
    if version == Version::API10 && mode == Mode::BackGround && retry {
        State::Waiting
    } else {
        State::Failed
    }
}

/// What becomes of a foreground task whose application is not in front: an
/// upload fails, a download is paused. `None` where the task may go on.
pub open spec fn app_state_verdict(mode: Mode, is_foreground: bool, action: Action) -> Option<
    State,
> {
    if mode == Mode::FrontEnd && !is_foreground {
        match action {
            Action::Upload => Some(State::Failed),
            Action::Download => Some(State::Paused),
            Action::Any => None,
        }
    } else {
        None
    }
}

pub fn decide_app_state_verdict(mode: Mode, is_foreground: bool, action: Action) -> (s: Option<
    State,
>)
    ensures
        s == app_state_verdict(mode, is_foreground, action),
{
    if mode == Mode::FrontEnd && !is_foreground {
        match action {
            Action::Upload => Some(State::Failed),
            Action::Download => Some(State::Paused),
            Action::Any => None,
        }
    } else {
        None
    }
}

/// How a transfer ends that broke off while the body was on its way: if
/// the network is back, it fails for another cause; if it stays away, a
/// legacy upload fails, as does a current task in the foreground or
/// without retries, and every other task waits for the network.
pub open spec fn body_transfer_outcome(
    online: bool,
    version: Version,
    action: Action,
    mode: Mode,
    retry: bool,
) -> TaskError {
    if online {
        TaskError::Failed(Reason::OthersError)
    } else if version == Version::API9 && action == Action::Upload {
        TaskError::Failed(Reason::NetworkOffline)
    } else if version == Version::API10 && (mode == Mode::FrontEnd || !retry) {
        TaskError::Failed(Reason::NetworkOffline)
    } else {
        TaskError::Waiting(TaskPhase::NetworkOffline)
    }
}

pub fn handle_body_transfer_error(
    online: bool,
    version: Version,
    action: Action,
    mode: Mode,
    retry: bool,
) -> (e: TaskError)
    ensures
        e == body_transfer_outcome(online, version, action, mode, retry),
{
    if online {
        return TaskError::Failed(Reason::OthersError);
    }
    match version {
        Version::API9 => {
            if action == Action::Upload {
                return TaskError::Failed(Reason::NetworkOffline);
            }
        },
        Version::API10 => {
            if mode == Mode::FrontEnd || !retry {
                return TaskError::Failed(Reason::NetworkOffline);
            }
        },
    }
    TaskError::Waiting(TaskPhase::NetworkOffline)
}

/// The share of the transfer that is done, in percent, for the progress
/// shown to the user; `None` where none is shown: for a legacy task that
/// did not ask for it, a current task in the foreground, an unknown size,
/// nothing processed, or no current file. Of a download with a range the
/// size is that of the range.
pub open spec fn background_percent(
    version: Version,
    background: bool,
    mode: Mode,
    action: Action,
    file_total_size: i64,
    total_processed: u64,
    begins: u64,
    ends: i64,
    index: int,
    files: int,
) -> Option<int> {
    let total: int = if action == Action::Download {
        if ends < 0 {
            file_total_size - begins
        } else {
            ends - begins + 1
        }
    } else {
        file_total_size as int
    };
    if (version == Version::API9 && !background) || (version == Version::API10 && mode
        == Mode::FrontEnd) || file_total_size <= 0 || total_processed == 0 || index >= files
        || total <= 0 {
        None
    } else {
        Some(total_processed * 100 / total)
    }
}

/// The sum of the sizes in `s`.
pub open spec fn total_size(s: Seq<i64>) -> int
    decreases s.len(),
{
    if s.len() == 0 {
        0
    } else {
        total_size(s.drop_last()) + s.last()
    }
}

/// The sum of the sizes, or -1 where it does not fit.
pub fn sum_sizes(sizes: &Vec<i64>) -> (r: i64)
    ensures
        r == (if i64::MIN <= total_size(sizes@) <= i64::MAX {
            total_size(sizes@)
        } else {
            -1
        }),
{
    let mut total: i128 = 0;
    let mut i: usize = 0;
    while i < sizes.len()
        invariant
            i <= sizes@.len(),
            total == total_size(sizes@.take(i as int)),
            -(i as int) * 0x8000_0000_0000_0000 <= total <= (i as int) * 0x8000_0000_0000_0000,
        decreases sizes@.len() - i,
    {
        proof {
            assert(sizes@.take(i + 1).drop_last() =~= sizes@.take(i as int));
            assert((i as int) * 0x8000_0000_0000_0000 <= 0xffff_ffff_ffff_ffff
                * 0x8000_0000_0000_0000) by (nonlinear_arith)
                requires
                    i <= 0xffff_ffff_ffff_ffff,
            ;
            assert((i as int + 1) * 0x8000_0000_0000_0000 == (i as int) * 0x8000_0000_0000_0000
                + 0x8000_0000_0000_0000) by (nonlinear_arith);
        }
        total = total + sizes[i] as i128;
        i = i + 1;
    }
    proof {
        assert(sizes@.take(i as int) =~= sizes@);
    }
    if total >= -0x8000_0000_0000_0000i128 && total <= 0x7fff_ffff_ffff_ffffi128 {
        total as i64
    } else {
        -1
    }
}

fn default_codes(n: usize) -> (v: Vec<Reason>)
    ensures
        v@.len() == n,
        forall|i: int| 0 <= i < n ==> v@[i] == Reason::Default,
{
    let mut v: Vec<Reason> = Vec::new();
    let mut i: usize = 0;
    while i < n
        invariant
            i <= n,
            v@.len() == i,
            forall|j: int| 0 <= j < i ==> v@[j] == Reason::Default,
        decreases n - i,
    {
        v.push(Reason::Default);
        i = i + 1;
    }
    v
}

/// The content type that is shown of a task: under the current version
/// what the caller sent as `Content-Type` for a download and the form type
/// for an upload; under the legacy version what the server answered.
pub open spec fn shown_mime_type(
    version: Version,
    action: Action,
    headers: Seq<(Seq<char>, Seq<char>)>,
    answered: Seq<char>,
) -> Seq<char> {
    match version {
        Version::API10 => match action {
            Action::Download => match lookup(headers, "Content-Type"@) {
                None => Seq::empty(),
                Some(v) => v,
            },
            Action::Upload => "multipart/form-data"@,
            Action::Any => Seq::empty(),
        },
        Version::API9 => answered,
    }
}

/// A task while it is held in memory.
pub struct RequestTask {
    pub conf: TaskConfig,
    pub ctime: u64,
    pub mime_type: String,
    pub progress: Progress,
    pub status: TaskStatus,
    pub code: Vec<Reason>,
    pub tries: u32,
    pub timeout_tries: u32,
    pub retry: bool,
    pub background_notify_time: u64,
    pub file_total_size: i64,
    pub upload_resume: bool,
    pub rest_time: u64,
    pub last_notify: u64,
}

/// What a change of status at `time` does to a task: where the transition
/// is allowed, the status is the new one, the progress shows the new state,
/// and the cause is noted with the files that it concerns; where it is
/// not, the task stays as it is.
pub open spec fn status_changed(
    before: RequestTask,
    after: RequestTask,
    to: State,
    reason: Reason,
    time: u64,
) -> bool {
    if transition_allowed(before.status.state, to, before.conf.common_data.action) {
        &&& after.status == status_after(before.status, to, reason, time)
        &&& after.progress@ == (ProgressView { state: to, ..before.progress@ })
        &&& after.code@ == codes_after(before.code@, before.progress@.index as int, to, reason)
        &&& after.conf == before.conf
        &&& after.ctime == before.ctime
        &&& after.mime_type == before.mime_type
        &&& after.tries == before.tries
        &&& after.timeout_tries == before.timeout_tries
        &&& after.retry == before.retry
        &&& after.background_notify_time == before.background_notify_time
        &&& after.file_total_size == before.file_total_size
        &&& after.upload_resume == before.upload_resume
        &&& after.rest_time == before.rest_time
        &&& after.last_notify == before.last_notify
    } else {
        after == before
    }
}

impl RequestTask {
    /// The invariant of a task: its progress is sound, and each file has a
    /// cause.
    pub open spec fn wf(&self) -> bool {
        &&& self.progress.wf()
        &&& self.code@.len() == self.conf.file_specs@.len()
    }

    /// Whether the task is in order: its progress is sound, and each file
    /// has a cause.
    pub fn is_sound(&self) -> (b: bool)
        ensures
            b == self.wf(),
    {
        self.progress.is_consistent() && self.code.len() == self.conf.file_specs.len()
    }

    pub fn task_id(&self) -> (id: u32)
        ensures
            id == self.conf.common_data.task_id,
    {
        self.conf.common_data.task_id
    }

    pub fn uid(&self) -> (id: u64)
        ensures
            id == self.conf.common_data.uid,
    {
        self.conf.common_data.uid
    }

    pub fn action(&self) -> (a: Action)
        ensures
            a == self.conf.common_data.action,
    {
        self.conf.common_data.action
    }

    pub fn mode(&self) -> (m: Mode)
        ensures
            m == self.conf.common_data.mode,
    {
        self.conf.common_data.mode
    }

    /// A task made at `time` from a configuration and the sizes of its
    /// files, as far as they are known. Nothing is processed; the total
    /// size is that of the files for an upload and unknown for a download.
    pub fn new(config: TaskConfig, sizes: Vec<i64>, time: u64) -> (t: RequestTask)
        requires
            config.common_data.action != Action::Any,
        ensures
            t.wf(),
            t.conf == config,
            t.ctime == time,
            t.mime_type@ == Seq::<char>::empty(),
            t.status == (TaskStatus {
                waiting_network_time: None,
                mtime: time,
                state: State::Initialized,
                reason: Reason::Default,
            }),
            t.progress@.sizes == sizes@,
            t.progress@.state == State::Initialized,
            t.progress@.total_processed == 0,
            t.progress@.index == 0,
            forall|i: int| 0 <= i < t.code@.len() ==> t.code@[i] == Reason::Default,
            t.tries == 0,
            t.timeout_tries == 0,
            !t.retry,
            !t.upload_resume,
            t.file_total_size == (if config.common_data.action == Action::Upload {
                if i64::MIN <= total_size(sizes@) <= i64::MAX {
                    total_size(sizes@)
                } else {
                    -1
                }
            } else {
                -1
            }),
            t.rest_time == config.common_data.timeout.total_timeout,
            t.background_notify_time == time,
            t.last_notify == time,
            t.progress@.extras == Seq::<(Seq<char>, Seq<char>)>::empty(),
            t.progress@.processed.len() == sizes@.len(),
            forall|i: int| 0 <= i < sizes@.len() ==> t.progress@.processed[i] == 0,
            t.code@.len() == config.file_specs@.len(),
    {
        let file_total_size = match config.common_data.action {
            Action::Upload => sum_sizes(&sizes),
            _ => -1,
        };
        let code = default_codes(config.file_specs.len());
        let rest_time = config.common_data.timeout.total_timeout;
        RequestTask {
            conf: config,
            ctime: time,
            mime_type: String::new(),
            progress: Progress::new(sizes),
            status: TaskStatus::new(time),
            code,
            tries: 0,
            timeout_tries: 0,
            retry: false,
            background_notify_time: time,
            file_total_size,
            upload_resume: false,
            rest_time,
            last_notify: time,
        }
    }

    /// A task that is taken up again at `time` from what was kept of it:
    /// its creation time, content type, tries, progress, state and cause
    /// are those kept. The total size is that of the files for an upload,
    /// and for a download the size that was kept, if any.
    pub fn new_by_info(config: TaskConfig, sizes: Vec<i64>, info: TaskInfo, time: u64) -> (t:
        RequestTask)
        requires
            config.common_data.action != Action::Any,
            info.progress.wf(),
        ensures
            t.wf(),
            t.conf == config,
            t.ctime == info.common_data.ctime,
            t.mime_type == info.mime_type,
            t.tries == info.common_data.tries,
            t.retry == info.common_data.retry,
            t.progress == info.progress,
            t.status == (TaskStatus {
                waiting_network_time: None,
                mtime: time,
                state: info.progress@.state,
                reason: Reason::spec_from_u8(info.common_data.reason),
            }),
            forall|i: int| 0 <= i < t.code@.len() ==> t.code@[i] == Reason::Default,
            t.timeout_tries == 0,
            !t.upload_resume,
            t.file_total_size == (if config.common_data.action == Action::Upload {
                if i64::MIN <= total_size(sizes@) <= i64::MAX {
                    total_size(sizes@)
                } else {
                    -1
                }
            } else if info.progress@.sizes.len() > 0 {
                info.progress@.sizes[0] as int
            } else {
                -1
            }),
            t.rest_time == config.common_data.timeout.total_timeout,
            t.background_notify_time == time,
            t.last_notify == time,
    {
        let file_total_size = match config.common_data.action {
            Action::Upload => sum_sizes(&sizes),
            _ => {
                if info.progress.sizes().len() > 0 {
                    info.progress.sizes()[0]
                } else {
                    -1
                }
            },
        };
        let code = default_codes(config.file_specs.len());
        let rest_time = config.common_data.timeout.total_timeout;
        let status = TaskStatus {
            waiting_network_time: None,
            mtime: time,
            state: info.progress.state(),
            reason: Reason::from_u8(info.common_data.reason),
        };
        RequestTask {
            conf: config,
            ctime: info.common_data.ctime,
            mime_type: info.mime_type,
            progress: info.progress,
            status,
            code,
            tries: info.common_data.tries,
            timeout_tries: 0,
            retry: info.common_data.retry,
            background_notify_time: time,
            file_total_size,
            upload_resume: false,
            rest_time,
            last_notify: time,
        }
    }

    /// Whether the caller asked for a part of the resource.
    pub fn require_range(&self) -> (b: bool)
        ensures
            b == spec_require_range(self.conf.common_data.begins, self.conf.common_data.ends),
    {
        self.conf.common_data.begins > 0 || self.conf.common_data.ends >= 0
    }

    /// Moves the task to `to_state` at `time` if the transition is allowed,
    /// and notes the cause with the current file, or with all files that
    /// are left where the task fails. A transition that is not allowed
    /// changes nothing.
    #[verifier::rlimit(50)]
    pub fn change_task_status(&mut self, to_state: State, to_reason: Reason, time: u64) -> (r:
        ErrorCode)
        requires
            old(self).wf(),
        ensures
            final(self).wf(),
            status_changed(*old(self), *final(self), to_state, to_reason, time),
            r == (if transition_allowed(
                old(self).status.state,
                to_state,
                old(self).conf.common_data.action,
            ) {
                ErrorCode::ErrOk
            } else {
                ErrorCode::TaskStateErr
            }),
    {
        if !check_transition(self.status.state, to_state, self.conf.common_data.action) {
            return ErrorCode::TaskStateErr;
        }
        if to_state == State::Waiting {
            self.status.waiting_network_time = Some(time);
        }
        self.status.mtime = time;
        self.status.state = to_state;
        self.status.reason = to_reason;
        self.progress.set_state(to_state);
        let index = self.progress.index();
        mark_codes(&mut self.code, index, to_state, to_reason);
        ErrorCode::ErrOk
    }

    /// Applies the verdict on a task whose network does not fit: the task
    /// waits or fails with `UnsupportedNetworkType`. Returns whether the
    /// network fits.
    pub fn check_network_status(&mut self, satisfied: bool, time: u64) -> (ok: bool)
        requires
            old(self).wf(),
        ensures
            final(self).wf(),
            ok == satisfied,
            satisfied ==> *final(self) == *old(self),
            !satisfied ==> status_changed(
                *old(self),
                *final(self),
                network_verdict(
                    old(self).conf.version,
                    old(self).conf.common_data.mode,
                    old(self).conf.common_data.retry,
                ),
                Reason::UnsupportedNetworkType,
                time,
            ),
    {
        if !satisfied {
            let verdict = decide_network_verdict(
                self.conf.version,
                self.conf.common_data.mode,
                self.conf.common_data.retry,
            );
            let _ = self.change_task_status(verdict, Reason::UnsupportedNetworkType, time);
            return false;
        }
        true
    }

    /// Applies the verdict on a foreground task whose application is not in
    /// front. Returns whether the task may go on.
    pub fn check_app_state(&mut self, is_foreground: bool, time: u64) -> (ok: bool)
        requires
            old(self).wf(),
        ensures
            final(self).wf(),
            ok == !(old(self).conf.common_data.mode == Mode::FrontEnd && !is_foreground),
            match app_state_verdict(
                old(self).conf.common_data.mode,
                is_foreground,
                old(self).conf.common_data.action,
            ) {
                Some(verdict) => status_changed(
                    *old(self),
                    *final(self),
                    verdict,
                    Reason::AppBackgroundOrTerminate,
                    time,
                ),
                None => *final(self) == *old(self),
            },
    {
        if self.conf.common_data.mode == Mode::FrontEnd && !is_foreground {
            match decide_app_state_verdict(
                self.conf.common_data.mode,
                is_foreground,
                self.conf.common_data.action,
            ) {
                Some(verdict) => {
                    let _ = self.change_task_status(
                        verdict,
                        Reason::AppBackgroundOrTerminate,
                        time,
                    );
                },
                None => {},
            }
            false
        } else {
            true
        }
    }

    /// Marks the task as running at `time`. Returns whether subscribers are
    /// to be told that the task resumes, which is when it was paused.
    pub fn prepare_running(&mut self, time: u64) -> (resumed: bool)
        requires
            old(self).wf(),
        ensures
            final(self).wf(),
            resumed == (old(self).status.state == State::Paused),
            status_changed(*old(self), *final(self), State::Running, Reason::Default, time),
    {
        let resumed = self.status.state == State::Paused;
        let _ = self.change_task_status(State::Running, Reason::Default, time);
        resumed
    }

    /// The outcome of each file.
    pub fn get_each_file_status(&self) -> (v: Vec<EachFileStatus>)
        ensures
            statuses_view(v@) == file_statuses(self.code@, self.conf.file_specs@),
    {
        get_each_file_status_by_code(&self.code, &self.conf.file_specs)
    }

    /// What an event about the task carries, with a copy of `progress`.
    pub fn build_notify_data(&self, progress: Progress) -> (d: NotifyData)
        requires
            progress@ == self.progress@,
        ensures
            d.bundle@ == self.conf.bundle@,
            d.progress@ == self.progress@,
            d.action == self.conf.common_data.action,
            d.version == self.conf.version,
            statuses_view(d.each_file_status@) == file_statuses(
                self.code@,
                self.conf.file_specs@,
            ),
            d.task_id == self.conf.common_data.task_id,
            d.uid == self.conf.common_data.uid,
    {
        NotifyData {
            bundle: self.conf.bundle.clone(),
            progress,
            action: self.conf.common_data.action,
            version: self.conf.version,
            each_file_status: self.get_each_file_status(),
            task_id: self.conf.common_data.task_id,
            uid: self.conf.common_data.uid,
        }
    }

    /// What is shown of the task, with a copy of `progress`. A foreground
    /// task is never shown as retrying.
    #[verifier::rlimit(50)]
    pub fn info(&self, progress: Progress) -> (i: TaskInfo)
        requires
            progress@ == self.progress@,
        ensures
            i.bundle@ == self.conf.bundle@,
            i.url@ == self.conf.url@,
            i.data@ == self.conf.data@,
            i.token@ == self.conf.token@,
            form_items_view(i.form_items@) == form_items_view(self.conf.form_items@),
            file_specs_view(i.file_specs@) == file_specs_view(self.conf.file_specs@),
            i.title@ == self.conf.title@,
            i.description@ == self.conf.description@,
            i.mime_type@ == shown_mime_type(
                self.conf.version,
                self.conf.common_data.action,
                self.conf.headers@,
                self.mime_type@,
            ),
            i.progress@ == self.progress@,
            statuses_view(i.each_file_status@) == file_statuses(
                self.code@,
                self.conf.file_specs@,
            ),
            i.common_data == (CommonTaskInfo {
                task_id: self.conf.common_data.task_id,
                uid: self.conf.common_data.uid,
                action: self.conf.common_data.action.spec_repr(),
                mode: self.conf.common_data.mode.spec_repr(),
                ctime: self.ctime,
                mtime: self.status.mtime,
                reason: self.status.reason.spec_repr(),
                gauge: self.conf.common_data.gauge,
                retry: self.conf.common_data.mode != Mode::FrontEnd
                    && self.conf.common_data.retry,
                tries: self.tries,
                version: self.conf.version.spec_repr(),
                priority: self.conf.common_data.priority,
            }),
    {
        let mime_type = match self.conf.version {
            Version::API10 => match self.conf.common_data.action {
                Action::Download => match self.conf.headers.get("Content-Type") {
                    None => String::new(),
                    Some(v) => v.clone(),
                },
                Action::Upload => "multipart/form-data".to_owned(),
                Action::Any => String::new(),
            },
            Version::API9 => self.mime_type.clone(),
        };
        TaskInfo {
            bundle: self.conf.bundle.clone(),
            url: self.conf.url.clone(),
            data: self.conf.data.clone(),
            token: self.conf.token.clone(),
            form_items: duplicate_form_items(&self.conf.form_items),
            file_specs: duplicate_file_specs(&self.conf.file_specs),
            title: self.conf.title.clone(),
            description: self.conf.description.clone(),
            mime_type,
            progress,
            each_file_status: self.get_each_file_status(),
            common_data: CommonTaskInfo {
                task_id: self.conf.common_data.task_id,
                uid: self.conf.common_data.uid,
                action: self.conf.common_data.action.repr(),
                mode: self.conf.common_data.mode.repr(),
                ctime: self.ctime,
                mtime: self.status.mtime,
                reason: self.status.reason.repr(),
                gauge: self.conf.common_data.gauge,
                retry: match self.conf.common_data.mode {
                    Mode::FrontEnd => false,
                    _ => self.conf.common_data.retry,
                },
                tries: self.tries,
                version: self.conf.version.repr(),
                priority: self.conf.common_data.priority,
            },
        }
    }

    /// The share of the transfer that is done, in percent, for the progress
    /// shown to the user at `time`, which is noted; `None` where none is
    /// shown.
    #[verifier::rlimit(50)]
    pub fn background_notify(&mut self, time: u64) -> (percent: Option<u32>)
        requires
            old(self).wf(),
        ensures
            final(self).wf(),
            final(self).conf == old(self).conf,
            final(self).progress == old(self).progress,
            final(self).status == old(self).status,
            final(self).code == old(self).code,
            match background_percent(
                old(self).conf.version,
                old(self).conf.common_data.background,
                old(self).conf.common_data.mode,
                old(self).conf.common_data.action,
                old(self).file_total_size,
                old(self).progress@.total_processed as u64,
                old(self).conf.common_data.begins,
                old(self).conf.common_data.ends,
                old(self).progress@.index as int,
                old(self).conf.file_specs@.len() as int,
            ) {
                Some(p) => percent == Some(
                    if p <= u32::MAX {
                        p as u32
                    } else {
                        u32::MAX
                    },
                ) && final(self).background_notify_time == time,
                None => percent.is_none(),
            },
    {
        if self.conf.version == Version::API9 && !self.conf.common_data.background {
            return None;
        }
        if self.conf.version == Version::API10 && self.conf.common_data.mode == Mode::FrontEnd {
            return None;
        }
        let total_processed = self.progress.total_processed() as u64;
        if self.file_total_size <= 0 || total_processed == 0 {
            return None;
        }
        let total: i128 = if self.conf.common_data.action == Action::Download {
            if self.conf.common_data.ends < 0 {
                self.file_total_size as i128 - self.conf.common_data.begins as i128
            } else {
                self.conf.common_data.ends as i128 - self.conf.common_data.begins as i128 + 1
            }
        } else {
            self.file_total_size as i128
        };
        if self.progress.index() >= self.conf.file_specs.len() || total <= 0 {
            return None;
        }
        self.background_notify_time = time;
        let percent: i128 = total_processed as i128 * 100 / total;
        assert(percent >= 0) by (nonlinear_arith)
            requires
                percent == (total_processed as int * 100) / (total as int),
                total > 0,
                total_processed >= 0,
        ;
        if percent > 0xffff_ffffi128 {
            Some(0xffff_ffffu32)
        } else {
            Some(percent as u32)
        }
    }

    /// Whether file `index` is sent in part, and how many of its bytes are
    /// still to be sent. Only the file that the configuration names is sent
    /// in part, from `begins` to `ends`, and only where that is a window
    /// within the file; of every other file the rest is sent.
    #[verifier::rlimit(50)]
    pub fn get_upload_info(&self, index: usize) -> (r: (bool, u64))
        requires
            self.wf(),
            index < self.progress@.sizes.len(),
        ensures
            r == upload_window(
                self.progress@.sizes[index as int],
                self.progress@.processed[index as int] as int,
                index as int == self.conf.common_data.index,
                self.conf.common_data.begins,
                self.conf.common_data.ends,
            ),
    {
        let file_size = self.progress.sizes()[index];
        let processed = self.progress.processed()[index] as u64;
        let rest: u64 = if file_size >= 0 && processed <= file_size as u64 {
            file_size as u64 - processed
        } else {
            0
        };
        if file_size <= 0 {
            return (false, rest);
        }
        if index as u64 != self.conf.common_data.index as u64 {
            return (false, rest);
        }
        let begins = self.conf.common_data.begins;
        let mut ends = self.conf.common_data.ends;
        if ends < 0 || ends >= file_size {
            ends = file_size - 1;
        }
        if begins >= file_size as u64 || begins > ends as u64 {
            return (false, rest);
        }
        let window: u64 = ends as u64 - begins + 1;
        let left: u64 = if processed <= window {
            window - processed
        } else {
            0
        };
        (true, left)
    }
}

/// Whether a file of `size` bytes, of which `processed` are sent, is sent
/// in part, and how many bytes are still to be sent. A negative `ends`, or
/// one beyond the file, stands for the last byte. Where `begins` lies
/// beyond the file or behind `ends`, there is no window and the rest of the
/// file is sent; else the window from `begins` to `ends`, less what is
/// sent. Nothing is left where more is sent than there is.
pub open spec fn upload_window(size: i64, processed: int, named: bool, begins: u64, ends: i64) -> (
    bool,
    u64,
) {
    let rest: u64 = if size >= processed {
        (size - processed) as u64
    } else {
        0
    };
    let last: int = if ends < 0 || ends >= size {
        size - 1
    } else {
        ends as int
    };
    if size <= 0 || !named || begins >= size || begins > last {
        (false, rest)
    } else if processed <= last - begins + 1 {
        (true, (last - begins + 1 - processed) as u64)
    } else {
        (true, 0)
    }
}

/// What a response says of the file: its content type, and its length if
/// the server announced one that is a number.
pub open spec fn file_info_outcome(has_length: bool, precise: bool) -> Result<(), TaskError> {
    if !has_length && precise {
        Err(TaskError::Failed(Reason::GetFileSizeFailed))
    } else {
        Ok(())
    }
}

impl RequestTask {
    /// Takes from a response the content type, if it carries one, and the
    /// size of the download: the announced length and what the file held
    /// before. `length` is the `Content-Length` header as it was sent, and
    /// `number` the number it stands for, if any. Without the header the
    /// task fails if it must know the size.
    pub fn apply_file_info(
        &mut self,
        content_type: Option<String>,
        length: Option<String>,
        number: Option<i64>,
    ) -> (r: Result<(), TaskError>)
        requires
            old(self).wf(),
            old(self).progress@.processed.len() == 1,
        ensures
            final(self).wf(),
            final(self).conf == old(self).conf,
            final(self).status == old(self).status,
            final(self).code == old(self).code,
            r == file_info_outcome(length.is_some(), old(self).conf.common_data.precise),
            final(self).mime_type@ == (match content_type {
                Some(t) => t@,
                None => old(self).mime_type@,
            }),
            length.is_some() && number.is_some() ==> final(self).file_total_size
                == number.unwrap() && final(self).progress@ == (ProgressView {
                sizes: seq![
                    if number.unwrap() + old(self).progress@.processed[0] <= i64::MAX {
                        (number.unwrap() + old(self).progress@.processed[0]) as i64
                    } else {
                        -1i64
                    },
                ],
                ..old(self).progress@
            }),
            !(length.is_some() && number.is_some()) ==> final(self).progress == old(self).progress && final(self).file_total_size == old(self).file_total_size,
            *final(self) == (RequestTask {
                mime_type: final(self).mime_type,
                progress: final(self).progress,
                file_total_size: final(self).file_total_size,
                ..*old(self)
            }),
    {
        match content_type {
            Some(t) => {
                self.mime_type = t;
            },
            None => {},
        }
        match length {
            Some(_) => {
                match number {
                    Some(v) => {
                        self.progress.set_download_size(v);
                        self.file_total_size = v;
                    },
                    None => {},
                }
                Ok(())
            },
            None => {
                if self.conf.common_data.precise {
                    Err(TaskError::Failed(Reason::GetFileSizeFailed))
                } else {
                    Ok(())
                }
            },
        }
    }

    /// As `apply_file_info`, reading the number from the header.
    pub fn get_file_info(&mut self, content_type: Option<String>, length: Option<String>) -> (r:
        Result<(), TaskError>)
        requires
            old(self).wf(),
            old(self).progress@.processed.len() == 1,
        ensures
            final(self).wf(),
            final(self).conf == old(self).conf,
            final(self).status == old(self).status,
            final(self).code == old(self).code,
            r == file_info_outcome(length.is_some(), old(self).conf.common_data.precise),
            final(self).mime_type@ == (match content_type {
                Some(t) => t@,
                None => old(self).mime_type@,
            }),
            match length {
                Some(l) => match crate::text::parsed_i64(l@) {
                    Some(number) => final(self).file_total_size == number && final(self).progress@ == (ProgressView {
                        sizes: seq![
                            if number + old(self).progress@.processed[0] <= i64::MAX {
                                (number + old(self).progress@.processed[0]) as i64
                            } else {
                                -1i64
                            },
                        ],
                        ..old(self).progress@
                    }),
                    None => final(self).progress == old(self).progress && final(self).file_total_size == old(self).file_total_size,
                },
                None => final(self).progress == old(self).progress && final(self).file_total_size
                    == old(self).file_total_size,
            },
            *final(self) == (RequestTask {
                mime_type: final(self).mime_type,
                progress: final(self).progress,
                file_total_size: final(self).file_total_size,
                ..*old(self)
            }),
    {
        let number = match &length {
            Some(l) => crate::text::parse_i64(l.as_str()),
            None => None,
        };
        self.apply_file_info(content_type, length, number)
    }
}

} // verus!
