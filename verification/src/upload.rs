//! The decisions of an upload.

use crate::config::{FileSpec, FormItem, TaskConfig};
use crate::download::{
    check_response_status, low_speed_words, network_retry, network_retry_outcome,
    no_space_words, status_outcome, ErrorKind, HttpError,
};
use crate::progress::{prefix_sum, Progress, ProgressView};
use crate::reason::Reason;
use crate::progress::rewound;
use crate::request_task::{upload_window, RequestTask, TaskError, TaskPhase};
use crate::strmap::lookup;
use crate::text::{contains, decimal, occurs_in, to_uppercase, u64_to_string, uppercase_of};
use vstd::prelude::*;

verus! {

/// Reads one file of an upload for the HTTP client. When the client starts
/// the request over, the bytes read anew are counted apart, so that none is
/// counted twice.
pub struct TaskReader {
    pub index: usize,
    pub reused: Option<usize>,
}

/// The bytes that a reader may still hand out of a file: the size less
/// what was sent, or less what was read since the request started over.
pub open spec fn read_budget(size: i64, processed: usize, reused: Option<usize>) -> int {
    let sent: int = match reused {
        Some(n) => n as int,
        None => processed as int,
    };
    if size >= sent {
        size - sent
    } else {
        0
    }
}

/// A reader that hands out no more than its budget keeps what is counted of
/// a file within the size of the file: what is processed, or what is
/// counted apart since the request started over.
pub proof fn lemma_read_within_size(size: i64, processed: usize, reused: Option<usize>, n: usize)
    requires
        n <= read_budget(size, processed, reused),
        match reused {
            Some(counted) => counted <= size,
            None => processed <= size,
        },
    ensures
        match reused {
            Some(counted) => counted + n <= size,
            None => processed + n <= size,
        },
{
}

impl TaskReader {
    /// A reader for file `index`.
    pub fn new(index: usize) -> (r: TaskReader)
        ensures
            r == (TaskReader { index, reused: None }),
    {
        TaskReader { index, reused: None }
    }

    /// How many bytes the reader may hand out at most; `None` where the
    /// file is read to its end: that is where it is not the file that the
    /// configuration names and nothing of it is sent yet.
    pub fn budget(&self, task: &RequestTask) -> (b: Option<u64>)
        requires
            task.wf(),
            self.index < task.progress@.sizes.len(),
        ensures
            b == (if task.conf.common_data.index == self.index
                || task.progress@.processed[self.index as int] != 0 {
                Some(
                    read_budget(
                        task.progress@.sizes[self.index as int],
                        task.progress@.processed[self.index as int],
                        self.reused,
                    ) as u64,
                )
            } else {
                None
            }),
    {
        let processed = task.progress.processed()[self.index];
        if task.conf.common_data.index as u64 == self.index as u64 || processed != 0 {
            let size = task.progress.sizes()[self.index];
            let sent: u64 = match self.reused {
                Some(n) => n as u64,
                None => processed as u64,
            };
            if size >= 0 && size as u64 >= sent {
                Some(size as u64 - sent)
            } else {
                Some(0)
            }
        } else {
            None
        }
    }

    /// Counts `size` bytes that were read: with the progress of the task,
    /// or apart where the request started over. Returns `false`, having
    /// counted nothing, where the count would not fit.
    #[verifier::rlimit(50)]
    pub fn record(&mut self, task: &mut RequestTask, size: usize) -> (ok: bool)
        requires
            old(task).wf(),
            old(self).index < old(task).progress@.sizes.len(),
        ensures
            final(task).wf(),
            final(task).conf == old(task).conf,
            final(task).status == old(task).status,
            final(task).code == old(task).code,
            final(self).index == old(self).index,
            match old(self).reused {
                Some(n) => final(task).progress == old(task).progress && ok == (n + size
                    <= usize::MAX) && final(self).reused == (if ok {
                    Some((n + size) as usize)
                } else {
                    Some(n)
                }),
                None => final(self).reused.is_none() && ok == (old(task).progress@.total_processed
                    + size <= usize::MAX) && (ok ==> final(task).progress@ == (ProgressView {
                    total_processed: (old(task).progress@.total_processed + size) as usize,
                    processed: old(task).progress@.processed.update(
                        old(self).index as int,
                        (old(task).progress@.processed[old(self).index as int] + size) as usize,
                    ),
                    ..old(task).progress@
                })) && (!ok ==> final(task).progress@ == old(task).progress@),
            },
    {
        match self.reused {
            Some(n) => match n.checked_add(size) {
                Some(m) => {
                    self.reused = Some(m);
                    true
                },
                None => false,
            },
            None => task.progress.add_processed(self.index, size),
        }
    }

    /// Starts the request over: what is read from now on is counted apart.
    /// Returns the position from which the file is read again: `begins`
    /// for the file that the configuration names, else its start.
    pub fn reuse(&mut self, task: &RequestTask) -> (position: u64)
        ensures
            final(self).index == old(self).index,
            final(self).reused == Some(0usize),
            position == (if task.conf.common_data.index == old(self).index {
                task.conf.common_data.begins
            } else {
                0
            }),
    {
        self.reused = Some(0);
        if task.conf.common_data.index as u64 == self.index as u64 {
            task.conf.common_data.begins
        } else {
            0
        }
    }
}

/// Whether each file of an upload travels as a form: as the caller's
/// `Content-Type` says, or for want of one, where the method is `POST`.
pub open spec fn form_upload(content_type: Option<Seq<char>>, method_upper: Seq<char>) -> bool {
    match content_type {
        Some(t) => t == "multipart/form-data"@,
        None => method_upper == "POST"@,
    }
}

pub fn is_multipart(content_type: Option<&String>, method_upper: &str) -> (b: bool)
    ensures
        b == form_upload(
            match content_type {
                Some(t) => Some(t@),
                None => None,
            },
            method_upper@,
        ),
{
    match content_type {
        Some(t) => *t == "multipart/form-data".to_owned(),
        None => method_upper.to_owned() == "POST".to_owned(),
    }
}

/// The position from which a file is sent: behind what is sent of it, and
/// for the file that the configuration names, where the file on disk is
/// longer than the part to send, behind `begins` as well.
pub open spec fn seek_position(
    named: bool,
    begins: u64,
    processed: u64,
    file_len: u64,
    size: i64,
) -> int {
    if named && (size < 0 || file_len > size) {
        begins + processed
    } else {
        processed as int
    }
}

/// The position from which a file is sent; `None` where it does not fit.
pub fn upload_seek_position(named: bool, begins: u64, processed: u64, file_len: u64, size: i64) -> (p:
    Option<u64>)
    ensures
        p.is_some() == (seek_position(named, begins, processed, file_len, size) <= u64::MAX),
        p.is_some() ==> p.unwrap() == seek_position(named, begins, processed, file_len, size),
{
    if named && (size < 0 || file_len > size as u64) {
        begins.checked_add(processed)
    } else {
        Some(processed)
    }
}

/// One part of a form: a field with its value, or a file with its length.
pub struct PartSpec {
    pub name: String,
    pub value: Option<String>,
    pub file_name: Option<String>,
    pub mime: Option<String>,
    pub length: Option<u64>,
    pub file_index: Option<usize>,
}

pub struct PartSpecView {
    pub name: Seq<char>,
    pub value: Option<Seq<char>>,
    pub file_name: Option<Seq<char>>,
    pub mime: Option<Seq<char>>,
    pub length: Option<u64>,
    pub file_index: Option<usize>,
}

impl View for PartSpec {
    type V = PartSpecView;

    open spec fn view(&self) -> PartSpecView {
        PartSpecView {
            name: self.name@,
            value: match self.value {
                Some(v) => Some(v@),
                None => None,
            },
            file_name: match self.file_name {
                Some(v) => Some(v@),
                None => None,
            },
            mime: match self.mime {
                Some(v) => Some(v@),
                None => None,
            },
            length: self.length,
            file_index: self.file_index,
        }
    }
}

/// The views of a list of parts.
pub open spec fn parts_view(v: Seq<PartSpec>) -> Seq<PartSpecView> {
    Seq::new(v.len(), |i: int| v[i]@)
}

/// The part of a form field.
pub open spec fn field_part(item: FormItem) -> PartSpecView {
    PartSpecView {
        name: item.name@,
        value: Some(item.value@),
        file_name: None,
        mime: None,
        length: None,
        file_index: None,
    }
}

/// The part of file `i`, with the bytes of it that are still to be sent.
pub open spec fn file_part(files: Seq<FileSpec>, progress: ProgressView, i: int) -> PartSpecView {
    PartSpecView {
        name: files[i].name@,
        value: None,
        file_name: Some(files[i].file_name@),
        mime: Some(files[i].mime_type@),
        length: Some(progress.remaining(i) as u64),
        file_index: Some(i as usize),
    }
}

/// The parts of a form that carries the files from `start` up to `end`:
/// every form field, then each of those files.
pub open spec fn form_parts(
    items: Seq<FormItem>,
    files: Seq<FileSpec>,
    progress: ProgressView,
    start: int,
    end: int,
) -> Seq<PartSpecView> {
    Seq::new(
        (items.len() + (end - start)) as nat,
        |k: int|
            if k < items.len() {
                field_part(items[k])
            } else {
                file_part(files, progress, start + (k - items.len()))
            },
    )
}

/// The parts of a form that carries the files from `start` up to `end`.
#[verifier::rlimit(50)]
pub fn build_form_parts(config: &TaskConfig, progress: &Progress, start: usize, end: usize) -> (v:
    Vec<PartSpec>)
    requires
        progress.wf(),
        start <= end <= config.file_specs@.len(),
        end <= progress@.sizes.len(),
    ensures
        parts_view(v@) == form_parts(
            config.form_items@,
            config.file_specs@,
            progress@,
            start as int,
            end as int,
        ),
{
    let ghost want = form_parts(
        config.form_items@,
        config.file_specs@,
        progress@,
        start as int,
        end as int,
    );
    let mut v: Vec<PartSpec> = Vec::new();
    let mut k: usize = 0;
    while k < config.form_items.len()
        invariant
            k <= config.form_items@.len(),
            v@.len() == k,
            start <= end,
            want == form_parts(
                config.form_items@,
                config.file_specs@,
                progress@,
                start as int,
                end as int,
            ),
            forall|j: int| 0 <= j < k ==> (#[trigger] v@[j])@ == want[j],
        decreases config.form_items@.len() - k,
    {
        let item = &config.form_items[k];
        v.push(
            PartSpec {
                name: item.name.clone(),
                value: Some(item.value.clone()),
                file_name: None,
                mime: None,
                length: None,
                file_index: None,
            },
        );
        k = k + 1;
    }
    let mut i: usize = start;
    while i < end
        invariant
            start <= i <= end,
            end <= config.file_specs@.len(),
            end <= progress@.sizes.len(),
            progress.wf(),
            v@.len() == config.form_items@.len() + (i - start),
            want == form_parts(
                config.form_items@,
                config.file_specs@,
                progress@,
                start as int,
                end as int,
            ),
            forall|j: int| 0 <= j < v@.len() ==> (#[trigger] v@[j])@ == want[j],
        decreases end - i,
    {
        let f = &config.file_specs[i];
        v.push(
            PartSpec {
                name: f.name.clone(),
                value: None,
                file_name: Some(f.file_name.clone()),
                mime: Some(f.mime_type.clone()),
                length: Some(progress.upload_length(i)),
                file_index: Some(i),
            },
        );
        i = i + 1;
    }
    proof {
        assert(parts_view(v@) =~= want);
    }
    v
}

/// The headers that the upload of a file as a stream adds: the default
/// content type where the caller gave none, and the length of what is
/// sent.
pub open spec fn stream_headers(has_content_type: bool, upload_length: u64) -> Seq<
    (Seq<char>, Seq<char>),
> {
    if has_content_type {
        seq![("Content-Length"@, decimal(upload_length as nat))]
    } else {
        seq![
            ("Content-Type"@, "application/octet-stream"@),
            ("Content-Length"@, decimal(upload_length as nat)),
        ]
    }
}

/// The views of a list of pairs of strings.
pub open spec fn pairs_view(v: Seq<(String, String)>) -> Seq<(Seq<char>, Seq<char>)> {
    Seq::new(v.len(), |i: int| (v[i].0@, v[i].1@))
}

/// The headers that the upload of file `index` as a stream adds.
pub fn build_stream_headers(config: &TaskConfig, progress: &Progress, index: usize) -> (v: Vec<
    (String, String),
>)
    requires
        progress.wf(),
        index < progress@.sizes.len(),
    ensures
        pairs_view(v@) == stream_headers(
            lookup(config.headers@, "Content-Type"@).is_some(),
            progress@.remaining(index as int) as u64,
        ),
{
    let mut v: Vec<(String, String)> = Vec::new();
    if !config.headers.contains_key("Content-Type") {
        v.push(("Content-Type".to_owned(), "application/octet-stream".to_owned()));
    }
    v.push(("Content-Length".to_owned(), u64_to_string(progress.upload_length(index))));
    proof {
        assert(pairs_view(v@) =~= stream_headers(
            lookup(config.headers@, "Content-Type"@).is_some(),
            progress@.remaining(index as int) as u64,
        ));
    }
    v
}

/// Whether an upload waits for the network after this error: after an
/// error of the connection, and after a transfer that broke off for
/// another cause than being too slow.
pub open spec fn upload_waits_for_network(kind: ErrorKind, message: Seq<u8>) -> bool {
    kind == ErrorKind::Connect || kind == ErrorKind::ConnectionUpgrade || (kind
        == ErrorKind::BodyTransfer && !occurs_in(message, low_speed_words()))
}

pub fn upload_needs_network_retry(err: &HttpError) -> (b: bool)
    ensures
        b == upload_waits_for_network(err.kind, vstd::utf8::encode_utf8(err.message@)),
{
    match err.kind {
        ErrorKind::Connect | ErrorKind::ConnectionUpgrade => true,
        ErrorKind::BodyTransfer => !contains(err.message.as_str(), "Below low speed limit"),
        _ => false,
    }
}

/// How an upload ends whose request met an error that stands.
pub open spec fn upload_failure(
    kind: ErrorKind,
    is_dns: bool,
    is_tls: bool,
    message: Seq<u8>,
) -> TaskError {
    match kind {
        ErrorKind::Timeout => TaskError::Failed(Reason::ContinuousTaskTimeout),
        ErrorKind::Request => TaskError::Failed(Reason::RequestError),
        ErrorKind::Redirect => TaskError::Failed(Reason::RedirectError),
        ErrorKind::Connect | ErrorKind::ConnectionUpgrade => if is_dns {
            TaskError::Failed(Reason::Dns)
        } else if is_tls {
            TaskError::Failed(Reason::Ssl)
        } else {
            TaskError::Failed(Reason::Tcp)
        },
        ErrorKind::BodyTransfer => if occurs_in(message, low_speed_words()) {
            TaskError::Failed(Reason::LowSpeed)
        } else {
            TaskError::Failed(Reason::OthersError)
        },
        ErrorKind::UserAborted => TaskError::Waiting(TaskPhase::UserAbort),
        _ => if occurs_in(message, no_space_words()) {
            TaskError::Failed(Reason::InsufficientSpace)
        } else {
            TaskError::Failed(Reason::OthersError)
        },
    }
}

pub fn classify_upload_error(err: &HttpError) -> (e: TaskError)
    ensures
        e == upload_failure(err.kind, err.is_dns, err.is_tls, vstd::utf8::encode_utf8(err.message@)),
{
    match err.kind {
        ErrorKind::Timeout => TaskError::Failed(Reason::ContinuousTaskTimeout),
        ErrorKind::Request => TaskError::Failed(Reason::RequestError),
        ErrorKind::Redirect => TaskError::Failed(Reason::RedirectError),
        ErrorKind::Connect | ErrorKind::ConnectionUpgrade => {
            if err.is_dns {
                TaskError::Failed(Reason::Dns)
            } else if err.is_tls {
                TaskError::Failed(Reason::Ssl)
            } else {
                TaskError::Failed(Reason::Tcp)
            }
        },
        ErrorKind::BodyTransfer => {
            if contains(err.message.as_str(), "Below low speed limit") {
                TaskError::Failed(Reason::LowSpeed)
            } else {
                TaskError::Failed(Reason::OthersError)
            }
        },
        ErrorKind::UserAborted => TaskError::Waiting(TaskPhase::UserAbort),
        _ => {
            if contains(err.message.as_str(), "No space left on device") {
                TaskError::Failed(Reason::InsufficientSpace)
            } else {
                TaskError::Failed(Reason::OthersError)
            }
        },
    }
}

impl RequestTask {
    /// Makes file `index` the current one of an upload that sends its
    /// files one by one. A task that was paused goes on where it stopped,
    /// once; otherwise the file starts over.
    pub fn prepare_single_upload(&mut self, index: usize) -> (ok: bool)
        requires
            old(self).wf(),
        ensures
            final(self).wf(),
            final(self).conf == old(self).conf,
            final(self).status == old(self).status,
            final(self).code == old(self).code,
            ok == (index < old(self).progress@.processed.len()),
            !ok ==> *final(self) == *old(self),
            ok ==> !final(self).upload_resume && final(self).progress@.index == index && final(self).progress@.sizes == old(self).progress@.sizes && final(self).progress@.processed.len() == old(self).progress@.processed.len() && final(self).progress@.processed[index as int] == (if old(self).upload_resume {
                old(self).progress@.processed[index as int]
            } else {
                0
            }) && final(self).progress@.total_processed == prefix_sum(
                old(self).progress@.processed,
                index as int,
            ) + final(self).progress@.processed[index as int],
            ok ==> final(self).progress@ == crate::progress::rewound(
                old(self).progress@,
                index as int,
                old(self).upload_resume,
            ) && *final(self) == (RequestTask {
                progress: final(self).progress,
                upload_resume: false,
                ..*old(self)
            }),
    {
        if index >= self.progress.processed().len() {
            return false;
        }
        let resume = self.upload_resume;
        self.upload_resume = false;
        self.progress.prepare_single_upload(index, resume);
        true
    }

    /// Finds the current file of an upload that sends all its files in one
    /// request and makes it current. A task that was paused goes on where
    /// it stopped, once; otherwise the file starts over. `None` where the
    /// task has no file.
    pub fn prepare_batch_upload(&mut self) -> (current: Option<usize>)
        requires
            old(self).wf(),
        ensures
            final(self).wf(),
            final(self).conf == old(self).conf,
            final(self).status == old(self).status,
            final(self).code == old(self).code,
            current.is_some() == (old(self).progress@.processed.len() > 0),
            current.is_none() ==> *final(self) == *old(self),
            current.is_some() ==> !final(self).upload_resume && current.unwrap()
                == crate::progress::batch_index(
                old(self).progress@.sizes,
                old(self).progress@.total_processed as int,
            ) && final(self).progress@.index == current.unwrap() && final(self).progress@.sizes
                == old(self).progress@.sizes && final(self).progress@.total_processed
                == prefix_sum(old(self).progress@.processed, current.unwrap() as int) + final(self).progress@.processed[current.unwrap() as int],
            current.is_some() ==> final(self).progress@ == crate::progress::rewound(
                old(self).progress@,
                current.unwrap() as int,
                old(self).upload_resume,
            ) && *final(self) == (RequestTask {
                progress: final(self).progress,
                upload_resume: false,
                ..*old(self)
            }),
            current.is_some() ==> current.unwrap() < old(self).progress@.processed.len(),
    {
        if self.progress.processed().len() == 0 {
            return None;
        }
        let resume = self.upload_resume;
        self.upload_resume = false;
        Some(self.progress.prepare_batch_upload(resume))
    }

    /// Judges the response to an upload request.
    pub fn on_upload_response(&mut self, status: u16) -> (r: Result<(), TaskError>)
        requires
            old(self).wf(),
        ensures
            final(self).wf(),
            final(self).conf == old(self).conf,
            final(self).progress == old(self).progress,
            final(self).status == old(self).status,
            final(self).code == old(self).code,
            (r, final(self).timeout_tries) == status_outcome(status, old(self).timeout_tries),
            *final(self) == (RequestTask { timeout_tries: final(self).timeout_tries, ..*old(self) }),
    {
        let mut timeout_tries = self.timeout_tries;
        let judged = check_response_status(status, &mut timeout_tries);
        self.timeout_tries = timeout_tries;
        judged
    }
}

/// What happens while an upload is attempted.
pub enum UploadEvent {
    /// The attempt begins.
    Begin,
    /// No response came: the error of the client, and whether the device
    /// is online now.
    RequestFailed { error: HttpError, online: bool },
    /// A response came, with this status.
    Response { status: u16 },
    /// The abort flag was found set.
    Aborted,
    /// An operation on a file failed.
    IoFailed,
}

/// Where a file is read from for a request.
#[derive(Clone, Copy, PartialEq, Eq, Structural, Debug)]
pub struct FileStart {
    pub index: usize,
    pub position: u64,
}

/// What is to be done next in an attempt at an upload.
pub enum UploadAction {
    /// A request is to be sent whose body is a form of these parts; the
    /// files among them are read from these positions.
    SendForm { parts: Vec<PartSpec>, starts: Vec<FileStart> },
    /// A request is to be sent whose body is `length` bytes of a file,
    /// with these headers added.
    SendStream { start: FileStart, length: u64, headers: Vec<(String, String)> },
    /// The attempt is over.
    End(Result<(), TaskError>),
}

pub enum UploadActionView {
    SendForm { parts: Seq<PartSpecView>, starts: Seq<FileStart> },
    SendStream { start: FileStart, length: u64, headers: Seq<(Seq<char>, Seq<char>)> },
    End(Result<(), TaskError>),
}

impl View for UploadAction {
    type V = UploadActionView;

    open spec fn view(&self) -> UploadActionView {
        match self {
            UploadAction::SendForm { parts, starts } => UploadActionView::SendForm {
                parts: parts_view(parts@),
                starts: starts@,
            },
            UploadAction::SendStream { start, length, headers } => UploadActionView::SendStream {
                start: *start,
                length: *length,
                headers: pairs_view(headers@),
            },
            UploadAction::End(r) => UploadActionView::End(*r),
        }
    }
}

/// The position from which file `i` of a task is sent, where the file on
/// disk is `len` bytes long.
pub open spec fn start_of(task: RequestTask, progress: ProgressView, i: int, len: u64) -> int {
    seek_position(
        task.conf.common_data.index == i,
        task.conf.common_data.begins,
        progress.processed[i] as u64,
        len,
        progress.sizes[i],
    )
}

/// Where the files from `start` up to `end` are read from; nothing where
/// a position does not fit.
pub open spec fn file_starts(
    task: RequestTask,
    progress: ProgressView,
    lens: Seq<u64>,
    start: int,
    end: int,
) -> Option<Seq<FileStart>>
    decreases end - start,
{
    if end <= start {
        Some(Seq::empty())
    } else {
        match file_starts(task, progress, lens, start, end - 1) {
            None => None,
            Some(before) => if start_of(task, progress, end - 1, lens[end - 1]) <= u64::MAX {
                Some(
                    before.push(
                        FileStart {
                            index: (end - 1) as usize,
                            position: start_of(task, progress, end - 1, lens[end - 1]) as u64,
                        },
                    ),
                )
            } else {
                None
            },
        }
    }
}

proof fn lemma_file_starts_none(
    task: RequestTask,
    progress: ProgressView,
    lens: Seq<u64>,
    start: int,
    k: int,
    end: int,
)
    requires
        start <= k <= end,
        file_starts(task, progress, lens, start, k).is_none(),
    ensures
        file_starts(task, progress, lens, start, end).is_none(),
    decreases end - k,
{
    if k < end {
        lemma_file_starts_none(task, progress, lens, start, k, end - 1);
    }
}

/// Whether the files of a task can be sent: each has a size, and its
/// length on disk is known.
pub open spec fn files_known(task: RequestTask, lens: Seq<u64>) -> bool {
    task.progress@.sizes.len() == task.conf.file_specs@.len() && lens.len()
        == task.conf.file_specs@.len()
}

/// Whether each file of the task travels as a form.
pub open spec fn sends_forms(task: RequestTask) -> bool {
    form_upload(lookup(task.conf.headers@, "Content-Type"@), uppercase_of(task.conf.method@))
}

/// What an upload that sends its files one by one does for file `index`:
/// past the last file the attempt ends well; else the file becomes the
/// current one and a request for it is sent, as a form or as a stream.
pub open spec fn sends_file(
    before: RequestTask,
    index: int,
    lens: Seq<u64>,
    after: RequestTask,
    action: UploadActionView,
) -> bool {
    if !files_known(before, lens) {
        after.progress == before.progress && after.upload_resume == before.upload_resume
            && action == UploadActionView::End(Err(TaskError::Failed(Reason::UploadFileError)))
    } else if index >= before.conf.file_specs@.len() {
        after.progress == before.progress && after.upload_resume == before.upload_resume
            && action == UploadActionView::End(Ok(()))
    } else {
        let p = rewound(before.progress@, index, before.upload_resume);
        let position = start_of(before, p, index, lens[index]);
        &&& after.progress@ == p
        &&& !after.upload_resume
        &&& action == (if position > u64::MAX {
            UploadActionView::End(Err(TaskError::Failed(Reason::OthersError)))
        } else if sends_forms(before) {
            UploadActionView::SendForm {
                parts: form_parts(
                    before.conf.form_items@,
                    before.conf.file_specs@,
                    p,
                    index,
                    index + 1,
                ),
                starts: seq![FileStart { index: index as usize, position: position as u64 }],
            }
        } else {
            UploadActionView::SendStream {
                start: FileStart { index: index as usize, position: position as u64 },
                length: upload_window(
                    p.sizes[index],
                    p.processed[index] as int,
                    index == before.conf.common_data.index,
                    before.conf.common_data.begins,
                    before.conf.common_data.ends,
                ).1,
                headers: stream_headers(
                    lookup(before.conf.headers@, "Content-Type"@).is_some(),
                    p.remaining(index) as u64,
                ),
            }
        })
    }
}

/// What an upload that sends all its files in one request does when it
/// begins: the file that it has reached becomes the current one, and one
/// form is sent with every file from there on.
pub open spec fn sends_batch(before: RequestTask, lens: Seq<u64>, after: RequestTask, action: UploadActionView) -> bool {
    let size = before.conf.file_specs@.len() as int;
    if !files_known(before, lens) {
        after.progress == before.progress && after.upload_resume == before.upload_resume
            && action == UploadActionView::End(Err(TaskError::Failed(Reason::UploadFileError)))
    } else if size == 0 {
        after.progress == before.progress && after.upload_resume == before.upload_resume
            && action == UploadActionView::End(Err(TaskError::Failed(Reason::OthersError)))
    } else {
        let start = crate::progress::batch_index(
            before.progress@.sizes,
            before.progress@.total_processed as int,
        );
        let p = rewound(before.progress@, start, before.upload_resume);
        &&& after.progress@ == p
        &&& !after.upload_resume
        &&& action == (match file_starts(before, p, lens, start, size) {
            None => UploadActionView::End(Err(TaskError::Failed(Reason::OthersError))),
            Some(starts) => UploadActionView::SendForm {
                parts: form_parts(
                    before.conf.form_items@,
                    before.conf.file_specs@,
                    p,
                    start,
                    size,
                ),
                starts,
            },
        })
    }
}

/// What an attempt at an upload does when no response came: after an
/// error for which it waits for the network it does so while waits are
/// left, and else it ends as the error says.
pub open spec fn upload_request_fails(
    before: RequestTask,
    error: HttpError,
    online: bool,
    after: RequestTask,
    action: UploadActionView,
) -> bool {
    let message = vstd::utf8::encode_utf8(error.message@);
    let stands = upload_failure(error.kind, error.is_dns, error.is_tls, message);
    let waited = network_retry_outcome(
        before.tries,
        online,
        before.conf.version,
        before.conf.common_data.action,
        before.conf.common_data.mode,
        before.conf.common_data.retry,
    );
    if upload_waits_for_network(error.kind, message) {
        after.tries == waited.1 && action == UploadActionView::End(
            Err(
                match waited.0 {
                    Err(e) => e,
                    Ok(()) => stands,
                },
            ),
        )
    } else {
        after.tries == before.tries && action == UploadActionView::End(Err(stands))
    }
}

/// What an attempt at an upload does on what happens to it.
pub open spec fn upload_stepped(
    before: RequestTask,
    event: UploadEvent,
    lens: Seq<u64>,
    after: RequestTask,
    action: UploadActionView,
) -> bool {
    match event {
        UploadEvent::Begin => after.tries == before.tries && after.timeout_tries
            == before.timeout_tries && if before.conf.common_data.multipart {
            sends_batch(before, lens, after, action)
        } else {
            sends_file(before, before.progress@.index as int, lens, after, action)
        },
        UploadEvent::RequestFailed { error, online } => after.progress == before.progress
            && after.upload_resume == before.upload_resume && after.timeout_tries
            == before.timeout_tries && upload_request_fails(before, error, online, after, action),
        UploadEvent::Response { status } => after.tries == before.tries && after.timeout_tries
            == status_outcome(status, before.timeout_tries).1 && match status_outcome(
            status,
            before.timeout_tries,
        ).0 {
            Err(e) => after.progress == before.progress && after.upload_resume
                == before.upload_resume && action == UploadActionView::End(Err(e)),
            Ok(()) => if before.conf.common_data.multipart {
                after.progress == before.progress && after.upload_resume == before.upload_resume
                    && action == UploadActionView::End(Ok(()))
            } else {
                sends_file(before, before.progress@.index + 1, lens, after, action)
            },
        },
        UploadEvent::Aborted => after.progress == before.progress && after.upload_resume
            == before.upload_resume && after.tries == before.tries && after.timeout_tries
            == before.timeout_tries && action == UploadActionView::End(
            Err(TaskError::Waiting(TaskPhase::UserAbort)),
        ),
        UploadEvent::IoFailed => after.progress == before.progress && after.upload_resume
            == before.upload_resume && after.tries == before.tries && after.timeout_tries
            == before.timeout_tries && action == UploadActionView::End(
            Err(TaskError::Failed(Reason::IoError)),
        ),
    }
}

impl RequestTask {
    fn known_files(&self, lens: &Vec<u64>) -> (b: bool)
        ensures
            b == files_known(*self, lens@),
    {
        self.progress.sizes().len() == self.conf.file_specs.len() && lens.len()
            == self.conf.file_specs.len()
    }

    fn start_position(&self, index: usize, len: u64) -> (p: Option<u64>)
        requires
            self.wf(),
            index < self.progress@.sizes.len(),
        ensures
            p.is_some() == (start_of(*self, self.progress@, index as int, len) <= u64::MAX),
            p.is_some() ==> p.unwrap() == start_of(*self, self.progress@, index as int, len),
    {
        upload_seek_position(
            self.conf.common_data.index as u64 == index as u64,
            self.conf.common_data.begins,
            self.progress.processed()[index] as u64,
            len,
            self.progress.sizes()[index],
        )
    }

    #[verifier::rlimit(50)]
    fn send_file(&mut self, index: usize, lens: &Vec<u64>) -> (action: UploadAction)
        requires
            old(self).wf(),
        ensures
            final(self).wf(),
            *final(self) == (RequestTask {
                progress: final(self).progress,
                upload_resume: final(self).upload_resume,
                ..*old(self)
            }),
            sends_file(*old(self), index as int, lens@, *final(self), action@),
    {
        if !self.known_files(lens) {
            return UploadAction::End(Err(TaskError::Failed(Reason::UploadFileError)));
        }
        if index >= self.conf.file_specs.len() {
            return UploadAction::End(Ok(()));
        }
        let upper = to_uppercase(self.conf.method.as_str());
        let form = is_multipart(self.conf.headers.get("Content-Type"), upper.as_str());
        let prepared = self.prepare_single_upload(index);
        assert(prepared);
        let position = match self.start_position(index, lens[index]) {
            Some(position) => position,
            None => {
                return UploadAction::End(Err(TaskError::Failed(Reason::OthersError)));
            },
        };
        let start = FileStart { index, position };
        if form {
            let parts = build_form_parts(&self.conf, &self.progress, index, index + 1);
            let mut starts: Vec<FileStart> = Vec::new();
            starts.push(start);
            proof {
                assert(starts@ =~= seq![start]);
            }
            UploadAction::SendForm { parts, starts }
        } else {
            let headers = build_stream_headers(&self.conf, &self.progress, index);
            let (_, length) = self.get_upload_info(index);
            UploadAction::SendStream { start, length, headers }
        }
    }

    #[verifier::rlimit(50)]
    fn send_batch(&mut self, lens: &Vec<u64>) -> (action: UploadAction)
        requires
            old(self).wf(),
        ensures
            final(self).wf(),
            *final(self) == (RequestTask {
                progress: final(self).progress,
                upload_resume: final(self).upload_resume,
                ..*old(self)
            }),
            sends_batch(*old(self), lens@, *final(self), action@),
    {
        if !self.known_files(lens) {
            return UploadAction::End(Err(TaskError::Failed(Reason::UploadFileError)));
        }
        let size = self.conf.file_specs.len();
        let first = match self.prepare_batch_upload() {
            Some(first) => first,
            None => {
                return UploadAction::End(Err(TaskError::Failed(Reason::OthersError)));
            },
        };
        let ghost p = self.progress@;
        let ghost task = *self;
        let mut starts: Vec<FileStart> = Vec::new();
        let mut index: usize = first;
        while index < size
            invariant
                first <= index <= size,
                self.wf(),
                *self == task,
                task == (RequestTask {
                    progress: task.progress,
                    upload_resume: false,
                    ..*old(self)
                }),
                p == self.progress@,
                p == rewound(old(self).progress@, first as int, old(self).upload_resume),
                first == crate::progress::batch_index(
                    old(self).progress@.sizes,
                    old(self).progress@.total_processed as int,
                ),
                files_known(*old(self), lens@),
                size > 0,
                size == self.conf.file_specs@.len(),
                size == self.progress@.sizes.len(),
                size == lens@.len(),
                file_starts(*old(self), p, lens@, first as int, index as int) == Some(starts@),
            decreases size - index,
        {
            match self.start_position(index, lens[index]) {
                Some(position) => {
                    starts.push(FileStart { index, position });
                },
                None => {
                    proof {
                        lemma_file_starts_none(
                            *old(self),
                            p,
                            lens@,
                            first as int,
                            index + 1,
                            size as int,
                        );
                    }
                    return UploadAction::End(Err(TaskError::Failed(Reason::OthersError)));
                },
            }
            index = index + 1;
        }
        let parts = build_form_parts(&self.conf, &self.progress, first, size);
        UploadAction::SendForm { parts, starts }
    }

    /// Takes an attempt at an upload one step on: notes what happened, and
    /// says what is to be done next. `lens` are the lengths of the files
    /// on disk.
    #[verifier::rlimit(50)]
    pub fn upload_step(&mut self, event: UploadEvent, lens: &Vec<u64>) -> (action: UploadAction)
        requires
            old(self).wf(),
        ensures
            final(self).wf(),
            *final(self) == (RequestTask {
                progress: final(self).progress,
                upload_resume: final(self).upload_resume,
                tries: final(self).tries,
                timeout_tries: final(self).timeout_tries,
                ..*old(self)
            }),
            upload_stepped(*old(self), event, lens@, *final(self), action@),
    {
        match event {
            UploadEvent::Begin => {
                if self.conf.common_data.multipart {
                    self.send_batch(lens)
                } else {
                    let index = self.progress.index();
                    self.send_file(index, lens)
                }
            },
            UploadEvent::RequestFailed { error, online } => {
                let stands = classify_upload_error(&error);
                if upload_needs_network_retry(&error) {
                    let mut tries = self.tries;
                    let waited = network_retry(
                        &mut tries,
                        online,
                        self.conf.version,
                        self.conf.common_data.action,
                        self.conf.common_data.mode,
                        self.conf.common_data.retry,
                    );
                    self.tries = tries;
                    match waited {
                        Err(e) => UploadAction::End(Err(e)),
                        Ok(()) => UploadAction::End(Err(stands)),
                    }
                } else {
                    UploadAction::End(Err(stands))
                }
            },
            UploadEvent::Response { status } => {
                match self.on_upload_response(status) {
                    Err(e) => UploadAction::End(Err(e)),
                    Ok(()) => {
                        if self.conf.common_data.multipart {
                            UploadAction::End(Ok(()))
                        } else {
                            let index = self.progress.index();
                            if index == usize::MAX {
                                let files = self.conf.file_specs.len();
                                UploadAction::End(
                                    if self.known_files(lens) {
                                        Ok(())
                                    } else {
                                        Err(TaskError::Failed(Reason::UploadFileError))
                                    },
                                )
                            } else {
                                self.send_file(index + 1, lens)
                            }
                        }
                    },
                }
            },
            UploadEvent::Aborted => UploadAction::End(
                Err(TaskError::Waiting(TaskPhase::UserAbort)),
            ),
            UploadEvent::IoFailed => UploadAction::End(Err(TaskError::Failed(Reason::IoError))),
        }
    }
}

} // verus!
