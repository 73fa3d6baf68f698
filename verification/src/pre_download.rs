//! Downloads that are made ahead of their use.

use crate::download::ErrorKind;
use crate::text::{ends_with, starts_with};
use std::sync::atomic::AtomicBool;
use std::sync::Arc;
use vstd::prelude::*;
use vstd::string::StringSliceAdditionalSpecFns;

verus! {

/// Lets its holders ask a download to end. All copies of a handle share
/// one flag, so a handle knows of the flag what it did to it itself, and
/// beyond that only what it just read.
pub struct CancelHandle {
    inner: Arc<AtomicBool>,
    /// Whether the flag was set through this handle, or through the handle
    /// that this one is a copy of before the copy was made.
    asked: bool,
}

impl CancelHandle {
    /// Whether the download was asked to end through this handle, or
    /// through the handle that this one is a copy of before the copy was
    /// made. The flag is set then, and stays set.
    pub closed spec fn asked(&self) -> bool {
        self.asked
    }

    /// A handle whose download is not asked to end.
    pub fn new() -> (h: CancelHandle)
        ensures
            !h.asked(),
    {
        CancelHandle { inner: Arc::new(AtomicBool::new(false)), asked: false }
    }

    /// Another handle for the same download: it knows what this one knows.
    pub fn duplicate(&self) -> (h: CancelHandle)
        ensures
            h.asked() == self.asked(),
    {
        CancelHandle { inner: self.inner.clone(), asked: self.asked }
    }

    /// Asks the download to end.
    pub fn cancel(&mut self)
        ensures
            final(self).asked(),
    {
        self.inner.store(true, std::sync::atomic::Ordering::Release);
        self.asked = true;
    }

    /// Whether the download was asked to end: it was where this handle
    /// asked for it; else the flag says whether another handle did.
    pub fn is_cancelled(&self) -> (cancelled: bool)
        ensures
            self.asked() ==> cancelled,
    {
        self.asked || self.inner.load(std::sync::atomic::Ordering::Acquire)
    }

    /// What the download answers when it reports its progress: an abort
    /// by the user once it was asked to end, and that it goes on else.
    pub fn poll_progress(&self) -> (r: Result<(), ErrorKind>)
        ensures
            self.asked() ==> r == Err::<(), ErrorKind>(ErrorKind::UserAborted),
            r.is_err() ==> r == Err::<(), ErrorKind>(ErrorKind::UserAborted),
    {
        progress_verdict(self.is_cancelled())
    }
}

/// What a download answers when it reports its progress, given whether it
/// was asked to end.
pub fn progress_verdict(cancelled: bool) -> (r: Result<(), ErrorKind>)
    ensures
        r == (if cancelled {
            Err::<(), ErrorKind>(ErrorKind::UserAborted)
        } else {
            Ok::<(), ErrorKind>(())
        }),
{
    if cancelled {
        Err(ErrorKind::UserAborted)
    } else {
        Ok(())
    }
}

/// The status of the response to a download that was made ahead.
pub struct Response {
    status: u16,
}

impl Response {
    pub closed spec fn spec_status(&self) -> u16 {
        self.status
    }

    pub fn new(status: u16) -> (r: Response)
        ensures
            r.spec_status() == status,
    {
        Response { status }
    }

    pub fn status(&self) -> (s: u16)
        ensures
            s == self.spec_status(),
    {
        self.status
    }
}

/// What the one who asked for a download is told at its end.
#[derive(Clone, Copy, PartialEq, Eq, Structural, Debug)]
pub enum DownloadEnd {
    Success,
    Cancel,
    Fail,
}

/// A download that is made ahead.
pub struct DownloadTask;

impl DownloadTask {
    /// What is told at the end of a download: success if there was no
    /// error, that it was cancelled if the user broke it off, and that it
    /// failed else.
    pub fn run(error: Option<ErrorKind>) -> (end: DownloadEnd)
        ensures
            end == (match error {
                None => DownloadEnd::Success,
                Some(ErrorKind::UserAborted) => DownloadEnd::Cancel,
                Some(_) => DownloadEnd::Fail,
            }),
    {
        match error {
            None => DownloadEnd::Success,
            Some(ErrorKind::UserAborted) => DownloadEnd::Cancel,
            Some(_) => DownloadEnd::Fail,
        }
    }
}

/// What the one who asks for a download is called with. Every method does
/// nothing unless it is given a body.
pub trait RequestCallback {
    /// Called when the request is successful.
    fn on_success(&mut self, response: Response) {
    }

    /// Called when the request fails.
    fn on_fail(&mut self, error: ErrorKind) {
    }

    /// Called when the request is cancelled.
    fn on_cancel(&mut self) {
    }

    /// Called when data is received.
    fn on_data_receive(&mut self, data: &[u8], headers: &str) {
    }

    /// Called when progress is made.
    fn on_progress(&mut self, dl_total: u64, dl_now: u64, ul_total: u64, ul_now: u64) {
    }
}

/// The end of the name of a file that holds a finished download.
pub open spec fn finish_suffix() -> Seq<u8> {
    "_F".spec_bytes()
}

/// The name of the file that holds the finished download of a task.
pub fn cache_file_name(task_id: &str) -> (name: String)
    ensures
        name@ == task_id@ + "_F"@,
{
    task_id.to_owned().concat("_F")
}

/// Whether a file in the directory of downloads holds a finished download;
/// any other file is left over from a download that broke off, and is
/// deleted.
pub fn is_finished_file(file_name: &str) -> (b: bool)
    ensures
        b == finish_suffix().is_suffix_of(file_name.spec_bytes()),
{
    ends_with(file_name, "_F")
}

/// The older of two files goes first.
pub open spec fn by_age(s: Seq<(u32, u64)>) -> bool {
    forall|i: int, j: int| 0 <= i < j < s.len() ==> s[i].1 <= s[j].1
}

/// Puts the finished downloads in the order of their age, the oldest
/// first, so that they are restored in the order in which they were made.
/// Each entry is the number of a file and the time of its last change.
#[verifier::rlimit(50)]
pub fn restore_order(files: &Vec<(u32, u64)>) -> (v: Vec<(u32, u64)>)
    ensures
        by_age(v@),
        v@.to_multiset() == files@.to_multiset(),
{
    broadcast use vstd::seq_lib::group_to_multiset_ensures;

    let mut v: Vec<(u32, u64)> = Vec::new();
    let mut i: usize = 0;
    proof {
        assert(files@.take(0) =~= Seq::empty());
    }
    while i < files.len()
        invariant
            i <= files@.len(),
            by_age(v@),
            v@.to_multiset() == files@.take(i as int).to_multiset(),
        decreases files@.len() - i,
    {
        let e = files[i];
        let mut at: usize = 0;
        while at < v.len() && v[at].1 <= e.1
            invariant
                at <= v@.len(),
                by_age(v@),
                forall|j: int| 0 <= j < at ==> v@[j].1 <= e.1,
            decreases v@.len() - at,
        {
            at = at + 1;
        }
        let ghost before = v@;
        v.insert(at, e);
        proof {
            vstd::seq_lib::to_multiset_insert(before, at as int, e);
            assert(files@.take(i + 1) =~= files@.take(i as int).push(e));
            vstd::seq_lib::to_multiset_build(files@.take(i as int), e);
            assert forall|a: int, b: int| 0 <= a < b < v@.len() implies v@[a].1 <= v@[b].1 by {
                if b < at {
                    assert(v@[a] == before[a] && v@[b] == before[b]);
                } else if b == at {
                    assert(v@[a] == before[a]);
                } else if a == at {
                    assert(v@[b] == before[b - 1]);
                    assert(before[at as int].1 > e.1);
                    if b - 1 > at {
                        assert(before[at as int].1 <= before[b - 1].1);
                    }
                } else if a < at {
                    assert(v@[a] == before[a] && v@[b] == before[b - 1]);
                } else {
                    assert(v@[a] == before[a - 1] && v@[b] == before[b - 1]);
                }
            }
        }
        i = i + 1;
    }
    proof {
        assert(files@.take(i as int) =~= files@);
    }
    v
}

} // verus!
