//! The decisions of a download, and those that every transfer makes on a
//! response or an error.

use crate::config::{Action, Mode, Version};
use crate::info::State;
use crate::reason::Reason;
use crate::progress::ProgressView;
use crate::request_task::{
    body_transfer_outcome, download_plan, file_info_outcome, handle_body_transfer_error,
    plan_download_request, spec_require_range, DownloadPlan, DownloadPlanView, RequestTask,
    TaskError, TaskPhase,
};
use crate::strmap::{put, StringMap};
use crate::text::{contains, lowercase_of, occurs_in, to_lowercase};
use vstd::prelude::*;
use vstd::string::StringSliceAdditionalSpecFns;

verus! {

/// How often a request is sent again after the server answered 408.
pub const TIMEOUT_RETRIES: u32 = 2;

/// How often a transfer waits for the network after a transport error.
pub const NETWORK_RETRIES: u32 = 4;

/// The kinds of errors that the HTTP client reports.
#[derive(Clone, Copy, PartialEq, Eq, Structural, Debug)]
pub enum ErrorKind {
    Build,
    Connect,
    ConnectionUpgrade,
    Other,
    Redirect,
    Request,
    Timeout,
    UserAborted,
    BodyTransfer,
    BodyDecode,
}

/// An error of the HTTP client, as far as the service looks at it.
pub struct HttpError {
    pub kind: ErrorKind,
    pub is_dns: bool,
    pub is_tls: bool,
    pub message: String,
}

/// Whether the status is a redirection, a client error or a server error.
pub open spec fn is_redirection(status: u16) -> bool {
    300 <= status <= 399
}

pub open spec fn is_client_error(status: u16) -> bool {
    400 <= status <= 499
}

pub open spec fn is_server_error(status: u16) -> bool {
    500 <= status <= 599
}

/// What the status of a response means for the attempt, and the count of
/// answers 408 in a row after it: a redirection that was not followed, a
/// client error other than 408 and a server error end the attempt with a
/// protocol error; 408 sends the request again, twice at most; any other
/// status lets the attempt go on and clears the count.
pub open spec fn status_outcome(status: u16, timeout_tries: u32) -> (Result<(), TaskError>, u32) {
    if is_server_error(status) || (status != 408 && is_client_error(status)) || is_redirection(
        status,
    ) {
        (Err(TaskError::Failed(Reason::ProtocolError)), timeout_tries)
    } else if status == 408 {
        if timeout_tries < TIMEOUT_RETRIES {
            (Err(TaskError::Waiting(TaskPhase::NeedRetry)), (timeout_tries + 1) as u32)
        } else {
            (Err(TaskError::Failed(Reason::ProtocolError)), timeout_tries)
        }
    } else {
        (Ok(()), 0)
    }
}

/// Judges the status of a response.
pub fn check_response_status(status: u16, timeout_tries: &mut u32) -> (r: Result<(), TaskError>)
    ensures
        (r, *final(timeout_tries)) == status_outcome(status, *old(timeout_tries)),
{
    if (status >= 500 && status <= 599) || (status != 408 && status >= 400 && status <= 499) || (
    status >= 300 && status <= 399) {
        return Err(TaskError::Failed(Reason::ProtocolError));
    }
    if status == 408 {
        if *timeout_tries < TIMEOUT_RETRIES {
            *timeout_tries = *timeout_tries + 1;
            return Err(TaskError::Waiting(TaskPhase::NeedRetry));
        } else {
            return Err(TaskError::Failed(Reason::ProtocolError));
        }
    }
    *timeout_tries = 0;
    Ok(())
}

/// What a download does with a response that lets it go on: where the
/// server sent the whole resource (200) though a range was asked for, the
/// task fails; where it sent the whole resource and the file holds bytes,
/// the file is emptied first (`Ok(true)`).
pub open spec fn whole_resource_outcome(status: u16, require_range: bool, file_len: u64) -> Result<
    bool,
    TaskError,
> {
    if status == 200 {
        if require_range {
            Err(TaskError::Failed(Reason::UnsupportedRangeRequest))
        } else {
            Ok(file_len > 0)
        }
    } else {
        Ok(false)
    }
}

pub fn check_whole_resource(status: u16, require_range: bool, file_len: u64) -> (r: Result<
    bool,
    TaskError,
>)
    ensures
        r == whole_resource_outcome(status, require_range, file_len),
{
    if status == 200 {
        if require_range {
            return Err(TaskError::Failed(Reason::UnsupportedRangeRequest));
        }
        return Ok(file_len > 0);
    }
    Ok(false)
}

/// Whether an error of this kind is one of the transport, after which the
/// transfer waits for the network before it gives up.
pub open spec fn is_transport_error(kind: ErrorKind) -> bool {
    kind == ErrorKind::Connect || kind == ErrorKind::ConnectionUpgrade || kind
        == ErrorKind::BodyTransfer
}

pub fn needs_network_retry(kind: ErrorKind) -> (b: bool)
    ensures
        b == is_transport_error(kind),
{
    kind == ErrorKind::Connect || kind == ErrorKind::ConnectionUpgrade || kind
        == ErrorKind::BodyTransfer
}

/// What waiting for the network comes to, and the count of such waits
/// after it. While waits are left: the request is sent again if the
/// network is there, and if it stays away the task ends as a transfer does
/// that broke off offline. With no wait left the error stands (`Ok`).
pub open spec fn network_retry_outcome(
    tries: u32,
    online: bool,
    version: Version,
    action: Action,
    mode: Mode,
    retry: bool,
) -> (Result<(), TaskError>, u32) {
    if tries < NETWORK_RETRIES {
        if online {
            (Err(TaskError::Waiting(TaskPhase::NeedRetry)), (tries + 1) as u32)
        } else {
            (Err(body_transfer_outcome(false, version, action, mode, retry)), (tries + 1) as u32)
        }
    } else {
        (Ok(()), tries)
    }
}

pub fn network_retry(
    tries: &mut u32,
    online: bool,
    version: Version,
    action: Action,
    mode: Mode,
    retry: bool,
) -> (r: Result<(), TaskError>)
    ensures
        (r, *final(tries)) == network_retry_outcome(
            *old(tries),
            online,
            version,
            action,
            mode,
            retry,
        ),
{
    if *tries < NETWORK_RETRIES {
        *tries = *tries + 1;
        if online {
            Err(TaskError::Waiting(TaskPhase::NeedRetry))
        } else {
            Err(handle_body_transfer_error(false, version, action, mode, retry))
        }
    } else {
        Ok(())
    }
}

/// The words by which a full disk is known in an error message.
pub open spec fn no_space_words() -> Seq<u8> {
    "No space left on device".spec_bytes()
}

/// The words by which a transfer that was too slow is known.
pub open spec fn low_speed_words() -> Seq<u8> {
    "Below low speed limit".spec_bytes()
}

/// The cause with which a download fails whose request met an error that
/// stands.
pub open spec fn request_failure(
    kind: ErrorKind,
    is_dns: bool,
    is_tls: bool,
    message: Seq<u8>,
) -> Reason {
    match kind {
        ErrorKind::Timeout => Reason::ContinuousTaskTimeout,
        ErrorKind::Request => Reason::RequestError,
        ErrorKind::Redirect => Reason::RedirectError,
        ErrorKind::Connect | ErrorKind::ConnectionUpgrade => if is_dns {
            Reason::Dns
        } else if is_tls {
            Reason::Ssl
        } else {
            Reason::Tcp
        },
        ErrorKind::BodyTransfer => Reason::OthersError,
        _ => if occurs_in(message, no_space_words()) {
            Reason::InsufficientSpace
        } else {
            Reason::OthersError
        },
    }
}

pub fn classify_request_error(err: &HttpError) -> (r: Reason)
    ensures
        r == request_failure(err.kind, err.is_dns, err.is_tls, vstd::utf8::encode_utf8(err.message@)),
{
    match err.kind {
        ErrorKind::Timeout => Reason::ContinuousTaskTimeout,
        ErrorKind::Request => Reason::RequestError,
        ErrorKind::Redirect => Reason::RedirectError,
        ErrorKind::Connect | ErrorKind::ConnectionUpgrade => {
            if err.is_dns {
                Reason::Dns
            } else if err.is_tls {
                Reason::Ssl
            } else {
                Reason::Tcp
            }
        },
        ErrorKind::BodyTransfer => Reason::OthersError,
        _ => {
            if contains(err.message.as_str(), "No space left on device") {
                Reason::InsufficientSpace
            } else {
                Reason::OthersError
            }
        },
    }
}

/// How a download ends whose body met an error: a timeout fails it, an
/// abort by the user leaves it waiting, a broken transfer is judged by the
/// network, and anything else fails it, for want of space where the
/// message says so.
pub open spec fn body_failure(
    kind: ErrorKind,
    message: Seq<u8>,
    online: bool,
    version: Version,
    action: Action,
    mode: Mode,
    retry: bool,
) -> TaskError {
    match kind {
        ErrorKind::Timeout => TaskError::Failed(Reason::ContinuousTaskTimeout),
        ErrorKind::UserAborted => TaskError::Waiting(TaskPhase::UserAbort),
        ErrorKind::BodyTransfer | ErrorKind::BodyDecode => body_transfer_outcome(
            online,
            version,
            action,
            mode,
            retry,
        ),
        _ => if occurs_in(message, no_space_words()) {
            TaskError::Failed(Reason::InsufficientSpace)
        } else {
            TaskError::Failed(Reason::OthersError)
        },
    }
}

pub fn handle_download_error(
    err: &HttpError,
    online: bool,
    version: Version,
    action: Action,
    mode: Mode,
    retry: bool,
) -> (e: TaskError)
    ensures
        e == body_failure(
            err.kind,
            vstd::utf8::encode_utf8(err.message@),
            online,
            version,
            action,
            mode,
            retry,
        ),
{
    match err.kind {
        ErrorKind::Timeout => TaskError::Failed(Reason::ContinuousTaskTimeout),
        ErrorKind::UserAborted => TaskError::Waiting(TaskPhase::UserAbort),
        ErrorKind::BodyTransfer | ErrorKind::BodyDecode => handle_body_transfer_error(
            online,
            version,
            action,
            mode,
            retry,
        ),
        _ => {
            if contains(err.message.as_str(), "No space left on device") {
                TaskError::Failed(Reason::InsufficientSpace)
            } else {
                TaskError::Failed(Reason::OthersError)
            }
        },
    }
}

/// What was found where the downloaded file should be.
#[derive(Clone, Copy, PartialEq, Eq, Structural, Debug)]
pub enum FileProbe {
    RegularFile,
    NotAFile,
    NotFound,
    Unreadable,
}

/// Whether a finished download is accepted: the file must still be there
/// and be a regular file. A file that the caller opened cannot be looked
/// up, and one that cannot be read for want of permission is let pass.
pub open spec fn file_exist_outcome(is_user_file: bool, probe: FileProbe) -> Result<(), TaskError> {
    if is_user_file {
        Ok(())
    } else if probe == FileProbe::NotAFile || probe == FileProbe::NotFound {
        Err(TaskError::Failed(Reason::IoError))
    } else {
        Ok(())
    }
}

pub fn check_file_exist(is_user_file: bool, probe: FileProbe) -> (r: Result<(), TaskError>)
    ensures
        r == file_exist_outcome(is_user_file, probe),
{
    if is_user_file {
        return Ok(());
    }
    match probe {
        FileProbe::NotAFile | FileProbe::NotFound => Err(TaskError::Failed(Reason::IoError)),
        _ => Ok(()),
    }
}

/// The header fields of a response as extras: each name in lower case with
/// its value; of a name that occurs twice the last value counts.
pub open spec fn extras_of(headers: Seq<(String, String)>) -> Seq<(Seq<char>, Seq<char>)>
    decreases headers.len(),
{
    if headers.len() == 0 {
        Seq::empty()
    } else {
        put(
            extras_of(headers.drop_last()),
            lowercase_of(headers.last().0@),
            headers.last().1@,
        )
    }
}

/// The header fields of a response as extras.
pub fn collect_extras(headers: &Vec<(String, String)>) -> (m: StringMap)
    ensures
        m@ == extras_of(headers@),
{
    let mut m = StringMap::new();
    let mut i: usize = 0;
    proof {
        assert(headers@.take(0) =~= Seq::empty());
    }
    while i < headers.len()
        invariant
            i <= headers@.len(),
            m@ == extras_of(headers@.take(i as int)),
        decreases headers@.len() - i,
    {
        proof {
            assert(headers@.take(i + 1).drop_last() =~= headers@.take(i as int));
        }
        m.insert(to_lowercase(headers[i].0.as_str()), headers[i].1.clone());
        i = i + 1;
    }
    proof {
        assert(headers@.take(i as int) =~= headers@);
    }
    m
}

/// What the service does after an attempt.
#[derive(Clone, Copy, Debug)]
pub enum AttemptNext {
    /// Attempt again, with this many seconds left for the whole task.
    Retry(u64),
    /// The transfer is over, with this result; `None` where the user
    /// broke it off and nothing is recorded.
    Done(Option<Result<(), Reason>>),
    /// The transfer broke off for want of a network, and the task is one
    /// that waits for it: it is recorded as waiting.
    Offline,
}

/// What follows an attempt that took `elapsed` seconds of the `rest_time`
/// seconds that the task had left: an attempt that asks for another is
/// followed by one, with the time that is then left; a success and a
/// failure are recorded; a task that is to wait for the network is recorded
/// as waiting; an abort by the user is not recorded.
pub open spec fn attempt_next(result: Result<(), TaskError>, elapsed: u64, rest_time: u64) -> AttemptNext {
    match result {
        Ok(()) => AttemptNext::Done(Some(Ok(()))),
        Err(TaskError::Waiting(TaskPhase::NeedRetry)) => AttemptNext::Retry(
            if rest_time >= elapsed {
                (rest_time - elapsed) as u64
            } else {
                0
            },
        ),
        Err(TaskError::Waiting(TaskPhase::UserAbort)) => AttemptNext::Done(None),
        Err(TaskError::Waiting(TaskPhase::NetworkOffline)) => AttemptNext::Offline,
        Err(TaskError::Failed(reason)) => AttemptNext::Done(Some(Err(reason))),
    }
}

impl RequestTask {
    /// Begins a run of the transfer, which may take several attempts: no
    /// attempt has been made again yet.
    pub fn begin_run(&mut self)
        requires
            old(self).wf(),
        ensures
            final(self).wf(),
            *final(self) == (RequestTask { tries: 0, ..*old(self) }),
    {
        self.tries = 0;
    }

    /// Starts a download into a file that holds `downloaded` bytes.
    pub fn prepare_download(&mut self, downloaded: usize)
        requires
            old(self).wf(),
        ensures
            final(self).wf(),
            final(self).conf == old(self).conf,
            final(self).status == old(self).status,
            final(self).code == old(self).code,
            final(self).tries == old(self).tries,
            final(self).timeout_tries == old(self).timeout_tries,
            final(self).rest_time == old(self).rest_time,
            final(self).progress@.state == State::Running,
            final(self).progress@.index == 0,
            final(self).progress@.total_processed == downloaded,
            final(self).progress@.sizes == seq![-1i64],
            final(self).progress@.processed == seq![downloaded],
            final(self).progress@.extras == old(self).progress@.extras,
            *final(self) == (RequestTask { progress: final(self).progress, ..*old(self) }),
    {
        self.progress.prepare_download(downloaded);
    }

    /// Judges the response to a download request, given the length of the
    /// file. Returns whether the file is to be emptied before the body is
    /// written.
    pub fn on_download_response(&mut self, status: u16, file_len: u64) -> (r: Result<
        bool,
        TaskError,
    >)
        requires
            old(self).wf(),
        ensures
            final(self).wf(),
            final(self).conf == old(self).conf,
            final(self).progress == old(self).progress,
            final(self).status == old(self).status,
            final(self).code == old(self).code,
            final(self).tries == old(self).tries,
            final(self).timeout_tries == status_outcome(status, old(self).timeout_tries).1,
            r == (match status_outcome(status, old(self).timeout_tries).0 {
                Err(e) => Err(e),
                Ok(()) => whole_resource_outcome(
                    status,
                    spec_require_range(
                        old(self).conf.common_data.begins,
                        old(self).conf.common_data.ends,
                    ),
                    file_len,
                ),
            }),
            *final(self) == (RequestTask { timeout_tries: final(self).timeout_tries, ..*old(self) }),
    {
        let mut timeout_tries = self.timeout_tries;
        let judged = check_response_status(status, &mut timeout_tries);
        self.timeout_tries = timeout_tries;
        match judged {
            Err(e) => Err(e),
            Ok(()) => check_whole_resource(status, self.require_range(), file_len),
        }
    }

    /// Decides what follows an attempt that took `elapsed` seconds; an
    /// attempt that is followed by another counts as a try.
    pub fn after_attempt(&mut self, result: Result<(), TaskError>, elapsed: u64) -> (next:
        AttemptNext)
        requires
            old(self).wf(),
        ensures
            final(self).wf(),
            final(self).conf == old(self).conf,
            final(self).progress == old(self).progress,
            final(self).status == old(self).status,
            final(self).code == old(self).code,
            final(self).timeout_tries == old(self).timeout_tries,
            next == attempt_next(result, elapsed, old(self).rest_time),
            match next {
                AttemptNext::Retry(rest) => final(self).rest_time == rest && final(self).tries == (
                if old(self).tries < u32::MAX {
                    (old(self).tries + 1) as u32
                } else {
                    u32::MAX
                }),
                _ => final(self).rest_time == old(self).rest_time && final(self).tries == old(self).tries,
            },
            *final(self) == (RequestTask {
                rest_time: final(self).rest_time,
                tries: final(self).tries,
                ..*old(self)
            }),
    {
        match result {
            Ok(()) => AttemptNext::Done(Some(Ok(()))),
            Err(TaskError::Waiting(TaskPhase::NeedRetry)) => {
                let rest = if self.rest_time >= elapsed {
                    self.rest_time - elapsed
                } else {
                    0
                };
                self.rest_time = rest;
                if self.tries < u32::MAX {
                    self.tries = self.tries + 1;
                }
                AttemptNext::Retry(rest)
            },
            Err(TaskError::Waiting(TaskPhase::UserAbort)) => AttemptNext::Done(None),
            Err(TaskError::Waiting(TaskPhase::NetworkOffline)) => AttemptNext::Offline,
            Err(TaskError::Failed(reason)) => AttemptNext::Done(Some(Err(reason))),
        }
    }

    /// Closes a download whose body is written: the size of the file is
    /// what was processed.
    pub fn finish_download(&mut self)
        requires
            old(self).wf(),
            old(self).progress@.processed.len() == 1,
        ensures
            final(self).wf(),
            final(self).conf == old(self).conf,
            final(self).status == old(self).status,
            final(self).code == old(self).code,
            final(self).progress@.processed == old(self).progress@.processed,
            final(self).progress@.total_processed == old(self).progress@.total_processed,
            old(self).progress@.processed[0] <= i64::MAX ==> final(self).progress@.sizes
                == seq![old(self).progress@.processed[0] as i64] && final(self).progress@.is_finish(),
            *final(self) == (RequestTask { progress: final(self).progress, ..*old(self) }),
            final(self).progress@ == (ProgressView {
                sizes: seq![
                    if old(self).progress@.processed[0] <= i64::MAX {
                        old(self).progress@.processed[0] as i64
                    } else {
                        -1i64
                    },
                ],
                ..old(self).progress@
            }),
    {
        self.progress.complete_download();
    }
}

/// What happens while a download is attempted.
pub enum DownloadEvent {
    /// The attempt begins: the file holds this many bytes.
    Begin { held: u64 },
    /// No response came: the error of the client, and whether the device
    /// is online now.
    RequestFailed { error: HttpError, online: bool },
    /// A response came: its status, the length of the file now, the header
    /// fields, and of these the content type and the content length.
    Response {
        status: u16,
        file_len: u64,
        headers: Vec<(String, String)>,
        content_type: Option<String>,
        content_length: Option<String>,
    },
    /// Bytes of the body were written to the file.
    Written { n: usize },
    /// The abort flag was found set.
    Aborted,
    /// The body broke off: the error of the client, and whether the device
    /// is online now.
    BodyFailed { error: HttpError, online: bool },
    /// The body is written to its end and the file is synced: what is
    /// found at the path of the file.
    Finished { probe: FileProbe },
    /// An operation on the file failed.
    IoFailed,
}

/// What is to be done next in an attempt at a download.
pub enum DownloadAction {
    /// The request is to be sent as planned, after the file was emptied
    /// where the plan says so.
    Send(DownloadPlan),
    /// The body is to be written to the file, which is emptied first
    /// where that is said.
    ReadBody { clear_file: bool },
    /// The body is to be read on.
    Continue,
    /// The attempt is over.
    End(Result<(), TaskError>),
}

pub enum DownloadActionView {
    Send(DownloadPlanView),
    ReadBody { clear_file: bool },
    Continue,
    End(Result<(), TaskError>),
}

impl View for DownloadAction {
    type V = DownloadActionView;

    open spec fn view(&self) -> DownloadActionView {
        match self {
            DownloadAction::Send(plan) => DownloadActionView::Send(plan@),
            DownloadAction::ReadBody { clear_file } => DownloadActionView::ReadBody {
                clear_file: *clear_file,
            },
            DownloadAction::Continue => DownloadActionView::Continue,
            DownloadAction::End(r) => DownloadActionView::End(*r),
        }
    }
}

/// The end of an attempt for a cause.
pub open spec fn fails(reason: Reason) -> DownloadActionView {
    DownloadActionView::End(Err(TaskError::Failed(reason)))
}

/// The progress with which a download begins into a file that holds
/// `held` bytes, where the file is emptied or not.
pub open spec fn begun(held: usize, emptied: bool, extras: Seq<(Seq<char>, Seq<char>)>) -> ProgressView {
    ProgressView {
        state: State::Running,
        index: 0,
        total_processed: if emptied {
            0
        } else {
            held
        },
        sizes: seq![-1i64],
        processed: seq![
            if emptied {
                0usize
            } else {
                held
            },
        ],
        extras,
    }
}

/// What an attempt at a download does when it begins: the bytes that the
/// file holds count as processed, and the request is planned; where the
/// plan is to fetch the whole resource though the file holds bytes,
/// nothing counts as processed. An attempt whose first byte does not fit
/// the counters fails.
pub open spec fn begins_download(before: RequestTask, held: u64, after: RequestTask, action: DownloadActionView) -> bool {
    let begins = before.conf.common_data.begins;
    let ends = before.conf.common_data.ends;
    &&& after.tries == before.tries
    &&& after.timeout_tries == before.timeout_tries
    &&& after.mime_type == before.mime_type
    &&& after.file_total_size == before.file_total_size
    &&& if held > usize::MAX || begins + held > u64::MAX {
        after.progress == before.progress && action == fails(Reason::BuildRequestFailed)
    } else {
        match download_plan(held, begins, ends, before.progress@.extras) {
            Err(e) => after.progress@ == begun(held as usize, false, before.progress@.extras)
                && action == DownloadActionView::End(Err(e)),
            Ok(plan) => after.progress@ == begun(
                held as usize,
                plan.clear_file,
                before.progress@.extras,
            ) && action == DownloadActionView::Send(plan),
        }
    }
}

/// What an attempt at a download does when no response came: after an
/// error of the transport it waits for the network while waits are left,
/// and else it fails for the cause of the error.
pub open spec fn request_fails(before: RequestTask, error: HttpError, online: bool, after: RequestTask, action: DownloadActionView) -> bool {
    let stands = TaskError::Failed(
        request_failure(
            error.kind,
            error.is_dns,
            error.is_tls,
            vstd::utf8::encode_utf8(error.message@),
        ),
    );
    let waited = network_retry_outcome(
        before.tries,
        online,
        before.conf.version,
        before.conf.common_data.action,
        before.conf.common_data.mode,
        before.conf.common_data.retry,
    );
    &&& after.progress == before.progress
    &&& after.timeout_tries == before.timeout_tries
    &&& after.mime_type == before.mime_type
    &&& after.file_total_size == before.file_total_size
    &&& if is_transport_error(error.kind) {
        after.tries == waited.1 && action == DownloadActionView::End(
            Err(
                match waited.0 {
                    Err(e) => e,
                    Ok(()) => stands,
                },
            ),
        )
    } else {
        after.tries == before.tries && action == DownloadActionView::End(Err(stands))
    }
}

/// The progress after a response was taken up: the extras are the header
/// fields; nothing counts as processed where the file is emptied; and the
/// size is the announced length and what counts as processed, where a
/// length is announced that is a number and the sum fits.
pub open spec fn responded(
    before: ProgressView,
    emptied: bool,
    headers: Seq<(String, String)>,
    content_length: Option<String>,
) -> ProgressView {
    let processed = if emptied {
        0usize
    } else {
        before.processed[0]
    };
    let taken = ProgressView {
        total_processed: if emptied {
            0
        } else {
            before.total_processed
        },
        processed: if emptied {
            seq![0usize]
        } else {
            before.processed
        },
        extras: extras_of(headers),
        ..before
    };
    match content_length {
        Some(l) => match crate::text::parsed_i64(l@) {
            Some(number) => ProgressView {
                sizes: seq![
                    if number + processed <= i64::MAX {
                        (number + processed) as i64
                    } else {
                        -1i64
                    },
                ],
                ..taken
            },
            None => taken,
        },
        None => taken,
    }
}

/// What an attempt at a download does with a response: a status that ends
/// the attempt ends it; else the header fields are kept, the size is
/// taken from the announced length, and the body is read, unless the size
/// must be known and is not announced.
pub open spec fn takes_response(
    before: RequestTask,
    status: u16,
    file_len: u64,
    headers: Seq<(String, String)>,
    content_type: Option<String>,
    content_length: Option<String>,
    after: RequestTask,
    action: DownloadActionView,
) -> bool {
    let judged = status_outcome(status, before.timeout_tries);
    &&& after.tries == before.tries
    &&& if before.progress@.processed.len() != 1 {
        after.progress == before.progress && after.timeout_tries == before.timeout_tries
            && after.mime_type == before.mime_type && after.file_total_size
            == before.file_total_size && action == fails(Reason::OthersError)
    } else {
        after.timeout_tries == judged.1 && match judged.0 {
            Err(e) => after.progress == before.progress && after.mime_type == before.mime_type
                && after.file_total_size == before.file_total_size && action
                == DownloadActionView::End(Err(e)),
            Ok(()) => match whole_resource_outcome(
                status,
                spec_require_range(before.conf.common_data.begins, before.conf.common_data.ends),
                file_len,
            ) {
                Err(e) => after.progress == before.progress && after.mime_type
                    == before.mime_type && after.file_total_size == before.file_total_size
                    && action == DownloadActionView::End(Err(e)),
                Ok(emptied) => {
                    &&& after.progress@ == responded(
                        before.progress@,
                        emptied,
                        headers,
                        content_length,
                    )
                    &&& after.mime_type@ == (match content_type {
                        Some(t) => t@,
                        None => before.mime_type@,
                    })
                    &&& action == (match file_info_outcome(
                        content_length.is_some(),
                        before.conf.common_data.precise,
                    ) {
                        Err(e) => DownloadActionView::End(Err(e)),
                        Ok(()) => DownloadActionView::ReadBody { clear_file: emptied },
                    })
                },
            },
        }
    }
}

/// What an attempt at a download does once bytes of the body are
/// written: they count as processed, and the body is read on, unless the
/// counters are full.
pub open spec fn writes(before: RequestTask, n: usize, after: RequestTask, action: DownloadActionView) -> bool {
    &&& after.tries == before.tries
    &&& after.timeout_tries == before.timeout_tries
    &&& after.mime_type == before.mime_type
    &&& after.file_total_size == before.file_total_size
    &&& if before.progress@.processed.len() >= 1 && before.progress@.total_processed + n
        <= usize::MAX {
        after.progress@ == (ProgressView {
            total_processed: (before.progress@.total_processed + n) as usize,
            processed: before.progress@.processed.update(
                0,
                (before.progress@.processed[0] + n) as usize,
            ),
            ..before.progress@
        }) && action == DownloadActionView::Continue
    } else {
        after.progress@ == before.progress@ && action == fails(Reason::OthersError)
    }
}

/// What an attempt at a download does when its body is written to its
/// end: the file must still be there, and then its size is what was
/// processed.
pub open spec fn finishes(before: RequestTask, probe: FileProbe, after: RequestTask, action: DownloadActionView) -> bool {
    &&& after.tries == before.tries
    &&& after.timeout_tries == before.timeout_tries
    &&& after.mime_type == before.mime_type
    &&& after.file_total_size == before.file_total_size
    &&& if before.progress@.processed.len() != 1 || before.conf.file_specs@.len() == 0 {
        after.progress == before.progress && action == fails(Reason::OthersError)
    } else {
        match file_exist_outcome(before.conf.file_specs@[0].is_user_file, probe) {
            Err(e) => after.progress == before.progress && action == DownloadActionView::End(
                Err(e),
            ),
            Ok(()) => after.progress@ == (ProgressView {
                sizes: seq![
                    if before.progress@.processed[0] <= i64::MAX {
                        before.progress@.processed[0] as i64
                    } else {
                        -1i64
                    },
                ],
                ..before.progress@
            }) && action == DownloadActionView::End(Ok(())),
        }
    }
}

/// What an attempt at a download does on what happens to it.
pub open spec fn download_stepped(before: RequestTask, event: DownloadEvent, after: RequestTask, action: DownloadActionView) -> bool {
    match event {
        DownloadEvent::Begin { held } => begins_download(before, held, after, action),
        DownloadEvent::RequestFailed { error, online } => request_fails(
            before,
            error,
            online,
            after,
            action,
        ),
        DownloadEvent::Response { status, file_len, headers, content_type, content_length } => takes_response(
            before,
            status,
            file_len,
            headers@,
            content_type,
            content_length,
            after,
            action,
        ),
        DownloadEvent::Written { n } => writes(before, n, after, action),
        DownloadEvent::Aborted => after.progress == before.progress && after.tries == before.tries
            && after.timeout_tries == before.timeout_tries && after.mime_type == before.mime_type
            && after.file_total_size == before.file_total_size && action
            == DownloadActionView::End(Err(TaskError::Waiting(TaskPhase::UserAbort))),
        DownloadEvent::BodyFailed { error, online } => after.progress == before.progress
            && after.tries == before.tries && after.timeout_tries == before.timeout_tries
            && after.mime_type == before.mime_type && after.file_total_size
            == before.file_total_size && action == DownloadActionView::End(
            Err(
                body_failure(
                    error.kind,
                    vstd::utf8::encode_utf8(error.message@),
                    online,
                    before.conf.version,
                    before.conf.common_data.action,
                    before.conf.common_data.mode,
                    before.conf.common_data.retry,
                ),
            ),
        ),
        DownloadEvent::Finished { probe } => finishes(before, probe, after, action),
        DownloadEvent::IoFailed => after.progress == before.progress && after.tries
            == before.tries && after.timeout_tries == before.timeout_tries && after.mime_type
            == before.mime_type && after.file_total_size == before.file_total_size && action
            == fails(Reason::IoError),
    }
}

impl RequestTask {
    /// Takes an attempt at a download one step on: notes what happened,
    /// and says what is to be done next.
    #[verifier::rlimit(50)]
    pub fn download_step(&mut self, event: DownloadEvent) -> (action: DownloadAction)
        requires
            old(self).wf(),
        ensures
            final(self).wf(),
            final(self).conf == old(self).conf,
            final(self).status == old(self).status,
            final(self).code == old(self).code,
            *final(self) == (RequestTask {
                progress: final(self).progress,
                tries: final(self).tries,
                timeout_tries: final(self).timeout_tries,
                mime_type: final(self).mime_type,
                file_total_size: final(self).file_total_size,
                ..*old(self)
            }),
            download_stepped(*old(self), event, *final(self), action@),
    {
        match event {
            DownloadEvent::Begin { held } => {
                let begins = self.conf.common_data.begins;
                if held > usize::MAX as u64 || begins > u64::MAX - held {
                    return DownloadAction::End(Err(TaskError::Failed(Reason::BuildRequestFailed)));
                }
                self.progress.prepare_download(held as usize);
                match plan_download_request(
                    held,
                    begins,
                    self.conf.common_data.ends,
                    self.progress.extras(),
                ) {
                    Err(e) => DownloadAction::End(Err(e)),
                    Ok(plan) => {
                        if plan.clear_file {
                            self.progress.clear_downloaded();
                        }
                        DownloadAction::Send(plan)
                    },
                }
            },
            DownloadEvent::RequestFailed { error, online } => {
                let stands = TaskError::Failed(classify_request_error(&error));
                if needs_network_retry(error.kind) {
                    let mut tries = self.tries;
                    let waited = network_retry(
                        &mut tries,
                        online,
                        self.conf.version,
                        self.conf.common_data.action,
                        self.conf.common_data.mode,
                        self.conf.common_data.retry,
                    );
                    self.tries = tries;
                    match waited {
                        Err(e) => DownloadAction::End(Err(e)),
                        Ok(()) => DownloadAction::End(Err(stands)),
                    }
                } else {
                    DownloadAction::End(Err(stands))
                }
            },
            DownloadEvent::Response { status, file_len, headers, content_type, content_length } => {
                if self.progress.processed().len() != 1 {
                    return DownloadAction::End(Err(TaskError::Failed(Reason::OthersError)));
                }
                let emptied = match self.on_download_response(status, file_len) {
                    Err(e) => {
                        return DownloadAction::End(Err(e));
                    },
                    Ok(emptied) => emptied,
                };
                if emptied {
                    self.progress.clear_downloaded();
                }
                self.progress.set_extras(collect_extras(&headers));
                match self.get_file_info(content_type, content_length) {
                    Err(e) => DownloadAction::End(Err(e)),
                    Ok(()) => DownloadAction::ReadBody { clear_file: emptied },
                }
            },
            DownloadEvent::Written { n } => {
                if self.progress.processed().len() >= 1 && self.progress.add_processed(0, n) {
                    DownloadAction::Continue
                } else {
                    DownloadAction::End(Err(TaskError::Failed(Reason::OthersError)))
                }
            },
            DownloadEvent::Aborted => DownloadAction::End(
                Err(TaskError::Waiting(TaskPhase::UserAbort)),
            ),
            DownloadEvent::BodyFailed { error, online } => DownloadAction::End(
                Err(
                    handle_download_error(
                        &error,
                        online,
                        self.conf.version,
                        self.conf.common_data.action,
                        self.conf.common_data.mode,
                        self.conf.common_data.retry,
                    ),
                ),
            ),
            DownloadEvent::Finished { probe } => {
                if self.progress.processed().len() != 1 || self.conf.file_specs.len() == 0 {
                    return DownloadAction::End(Err(TaskError::Failed(Reason::OthersError)));
                }
                match check_file_exist(self.conf.file_specs[0].is_user_file, probe) {
                    Err(e) => DownloadAction::End(Err(e)),
                    Ok(()) => {
                        self.finish_download();
                        DownloadAction::End(Ok(()))
                    },
                }
            },
            DownloadEvent::IoFailed => DownloadAction::End(
                Err(TaskError::Failed(Reason::IoError)),
            ),
        }
    }
}

} // verus!
