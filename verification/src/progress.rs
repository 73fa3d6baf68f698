//! How far a task has come: sizes and processed bytes of its files.

use crate::info::State;
use crate::strmap::StringMap;
use vstd::prelude::*;

verus! {

/// The sum of the numbers in `s`.
pub open spec fn sum(s: Seq<usize>) -> int
    decreases s.len(),
{
    if s.len() == 0 {
        0
    } else {
        sum(s.drop_last()) + s.last()
    }
}

/// The sum of the first `n` numbers in `s`.
pub open spec fn prefix_sum(s: Seq<usize>, n: int) -> int {
    sum(s.take(n))
}

pub proof fn lemma_sum_push(s: Seq<usize>, x: usize)
    ensures
        sum(s.push(x)) == sum(s) + x,
{
    assert(s.push(x).drop_last() =~= s);
}

/// A list of one number sums to that number.
pub proof fn lemma_sum_one(x: usize)
    ensures
        sum(seq![x]) == x,
{
    lemma_sum_push(Seq::empty(), x);
    assert(seq![x] =~= Seq::<usize>::empty().push(x));
}

pub proof fn lemma_sum_nonnegative(s: Seq<usize>)
    ensures
        sum(s) >= 0,
    decreases s.len(),
{
    if s.len() > 0 {
        lemma_sum_nonnegative(s.drop_last());
    }
}

/// Replacing one number changes the sum by the difference.
pub proof fn lemma_sum_update(s: Seq<usize>, i: int, x: usize)
    requires
        0 <= i < s.len(),
    ensures
        sum(s.update(i, x)) == sum(s) - s[i] + x,
    decreases s.len(),
{
    if i == s.len() - 1 {
        assert(s.update(i, x).drop_last() =~= s.drop_last());
    } else {
        lemma_sum_update(s.drop_last(), i, x);
        assert(s.update(i, x).drop_last() =~= s.drop_last().update(i, x));
    }
}

/// The sum of a prefix and of the rest make the sum of the whole.
pub proof fn lemma_sum_split(s: Seq<usize>, n: int)
    requires
        0 <= n <= s.len(),
    ensures
        sum(s) == sum(s.take(n)) + sum(s.skip(n)),
    decreases s.len(),
{
    if n == s.len() {
        assert(s.take(n) =~= s);
        assert(s.skip(n) =~= Seq::empty());
    } else {
        lemma_sum_split(s.drop_last(), n);
        assert(s.drop_last().take(n) =~= s.take(n));
        assert(s.skip(n).drop_last() =~= s.drop_last().skip(n));
    }
}

/// One number of a list is at most the sum.
pub proof fn lemma_sum_bounds_each(s: Seq<usize>, i: int)
    requires
        0 <= i < s.len(),
    ensures
        s[i] <= sum(s),
    decreases s.len(),
{
    lemma_sum_nonnegative(s.drop_last());
    if i < s.len() - 1 {
        lemma_sum_bounds_each(s.drop_last(), i);
    }
}

/// A list of zeros sums to zero.
pub proof fn lemma_sum_zeros(s: Seq<usize>)
    requires
        forall|i: int| 0 <= i < s.len() ==> s[i] == 0,
    ensures
        sum(s) == 0,
    decreases s.len(),
{
    if s.len() > 0 {
        lemma_sum_zeros(s.drop_last());
    }
}

/// The progress of a task. The total of processed bytes always equals the
/// sum over the files, and there is one processed count per size.
pub struct Progress {
    state: State,
    index: usize,
    total_processed: usize,
    sizes: Vec<i64>,
    processed: Vec<usize>,
    extras: StringMap,
}

/// A progress as plain mathematical values.
pub struct ProgressView {
    pub state: State,
    pub index: usize,
    pub total_processed: usize,
    pub sizes: Seq<i64>,
    pub processed: Seq<usize>,
    pub extras: Seq<(Seq<char>, Seq<char>)>,
}

impl ProgressView {
    /// The invariant of a progress.
    pub open spec fn wf(self) -> bool {
        &&& self.sizes.len() == self.processed.len()
        &&& sum(self.processed) == self.total_processed
    }

    /// Every file has a known size and is processed to its end.
    pub open spec fn is_finish(self) -> bool {
        forall|i: int|
            0 <= i < self.sizes.len() ==> (#[trigger] self.sizes[i]) == self.processed[i]
    }

    /// The bytes of file `i` that are still to be sent: its size less what
    /// is processed, zero where the size is unknown or exceeded.
    pub open spec fn remaining(self, i: int) -> int {
        if self.sizes[i] >= self.processed[i] {
            self.sizes[i] - self.processed[i]
        } else {
            0
        }
    }
}

/// A progress after file `index` became the current one of an upload: the
/// files before it keep what is processed of them, the file itself keeps
/// it where the upload resumes and starts over else, and of the files
/// after it nothing is processed.
pub open spec fn rewound(p: ProgressView, index: int, resume: bool) -> ProgressView {
    let kept = if resume {
        p.processed[index]
    } else {
        0usize
    };
    ProgressView {
        index: index as usize,
        total_processed: (prefix_sum(p.processed, index) + kept) as usize,
        processed: Seq::new(
            p.processed.len(),
            |i: int|
                if i < index {
                    p.processed[i]
                } else if i == index {
                    kept
                } else {
                    0usize
                },
        ),
        ..p
    }
}

impl View for Progress {
    type V = ProgressView;

    closed spec fn view(&self) -> ProgressView {
        ProgressView {
            state: self.state,
            index: self.index,
            total_processed: self.total_processed,
            sizes: self.sizes@,
            processed: self.processed@,
            extras: self.extras@,
        }
    }
}

fn zeros(n: usize) -> (v: Vec<usize>)
    ensures
        v@.len() == n,
        forall|i: int| 0 <= i < n ==> v@[i] == 0,
{
    let mut v: Vec<usize> = Vec::new();
    let mut i: usize = 0;
    while i < n
        invariant
            i <= n,
            v@.len() == i,
            forall|j: int| 0 <= j < i ==> v@[j] == 0,
        decreases n - i,
    {
        v.push(0);
        i = i + 1;
    }
    v
}

fn one_i64(x: i64) -> (v: Vec<i64>)
    ensures
        v@ == seq![x],
{
    let mut v: Vec<i64> = Vec::new();
    v.push(x);
    v
}

fn one_usize(x: usize) -> (v: Vec<usize>)
    ensures
        v@ == seq![x],
{
    let mut v: Vec<usize> = Vec::new();
    v.push(x);
    v
}

/// The sum of `v`, or `None` where it does not fit.
pub fn checked_sum(v: &Vec<usize>) -> (r: Option<usize>)
    ensures
        r.is_some() == (sum(v@) <= usize::MAX),
        r.is_some() ==> r.unwrap() == sum(v@),
{
    let mut total: usize = 0;
    let mut i: usize = 0;
    while i < v.len()
        invariant
            i <= v@.len(),
            total == sum(v@.take(i as int)),
        decreases v@.len() - i,
    {
        proof {
            assert(v@.take(i + 1).drop_last() =~= v@.take(i as int));
        }
        match total.checked_add(v[i]) {
            Some(t) => {
                total = t;
            },
            None => {
                proof {
                    lemma_sum_split(v@, i + 1);
                    lemma_sum_nonnegative(v@.skip(i + 1));
                }
                return None;
            },
        }
        i = i + 1;
    }
    proof {
        assert(v@.take(i as int) =~= v@);
    }
    Some(total)
}

impl Progress {
    /// The invariant, for those who hold a `Progress`.
    pub open spec fn wf(&self) -> bool {
        self@.wf()
    }

    /// The progress of a task that has not run: nothing processed.
    pub fn new(sizes: Vec<i64>) -> (p: Progress)
        ensures
            p.wf(),
            p@.state == State::Initialized,
            p@.index == 0,
            p@.total_processed == 0,
            p@.sizes == sizes@,
            p@.processed.len() == sizes@.len(),
            forall|i: int| 0 <= i < sizes@.len() ==> p@.processed[i] == 0,
            p@.extras.len() == 0,
    {
        let processed = zeros(sizes.len());
        proof {
            lemma_sum_zeros(processed@);
        }
        Progress {
            state: State::Initialized,
            index: 0,
            total_processed: 0,
            sizes,
            processed,
            extras: StringMap::new(),
        }
    }

    /// A progress read back from where it was kept. The total is computed
    /// anew. `None` where the two lists differ in length or the total does
    /// not fit.
    pub fn restore(
        state: State,
        index: usize,
        sizes: Vec<i64>,
        processed: Vec<usize>,
        extras: StringMap,
    ) -> (r: Option<Progress>)
        ensures
            r.is_some() == (sizes@.len() == processed@.len() && sum(processed@) <= usize::MAX),
            r.is_some() ==> r.unwrap().wf() && r.unwrap()@ == (ProgressView {
                state,
                index,
                total_processed: sum(processed@) as usize,
                sizes: sizes@,
                processed: processed@,
                extras: extras@,
            }),
    {
        if sizes.len() != processed.len() {
            return None;
        }
        match checked_sum(&processed) {
            Some(total) => Some(
                Progress { state, index, total_processed: total, sizes, processed, extras },
            ),
            None => None,
        }
    }

    /// Whether the progress is in order: there is a size for each file,
    /// and the total is the sum of what is processed of the files.
    pub fn is_consistent(&self) -> (b: bool)
        ensures
            b == self.wf(),
    {
        if self.sizes.len() != self.processed.len() {
            return false;
        }
        match checked_sum(&self.processed) {
            Some(total) => total == self.total_processed,
            None => false,
        }
    }

    pub fn state(&self) -> (s: State)
        ensures
            s == self@.state,
    {
        self.state
    }

    pub fn index(&self) -> (i: usize)
        ensures
            i == self@.index,
    {
        self.index
    }

    pub fn total_processed(&self) -> (n: usize)
        ensures
            n == self@.total_processed,
    {
        self.total_processed
    }

    pub fn sizes(&self) -> (v: &Vec<i64>)
        ensures
            v@ == self@.sizes,
    {
        &self.sizes
    }

    pub fn processed(&self) -> (v: &Vec<usize>)
        ensures
            v@ == self@.processed,
    {
        &self.processed
    }

    pub fn extras(&self) -> (m: &StringMap)
        ensures
            m@ == self@.extras,
    {
        &self.extras
    }

    /// Records the state of the task.
    pub fn set_state(&mut self, state: State)
        ensures
            final(self)@ == (ProgressView { state, ..old(self)@ }),
    {
        self.state = state;
    }

    /// Replaces the extras, which hold the header fields of the last
    /// response.
    pub fn set_extras(&mut self, extras: StringMap)
        ensures
            final(self)@ == (ProgressView { extras: extras@, ..old(self)@ }),
    {
        self.extras = extras;
    }

    /// Whether every file has a known size and is processed to its end.
    pub fn is_finish(&self) -> (b: bool)
        requires
            self.wf(),
        ensures
            b == self@.is_finish(),
    {
        let mut i: usize = 0;
        while i < self.sizes.len()
            invariant
                i <= self.sizes@.len(),
                self.sizes@.len() == self.processed@.len(),
                forall|j: int|
                    0 <= j < i ==> (#[trigger] self.sizes@[j]) == self.processed@[j],
            decreases self.sizes@.len() - i,
        {
            let size = self.sizes[i];
            let done = self.processed[i];
            if size < 0 || done as u64 > 0x7fff_ffff_ffff_ffffu64 || size as u64 != done as u64 {
                assert(self@.sizes[i as int] != self@.processed[i as int]);
                return false;
            }
            i = i + 1;
        }
        true
    }

    /// The bytes of file `index` that are still to be sent.
    pub fn upload_length(&self, index: usize) -> (n: u64)
        requires
            self.wf(),
            index < self@.sizes.len(),
        ensures
            n == self@.remaining(index as int),
    {
        let size = self.sizes[index];
        let done = self.processed[index];
        if size >= 0 && done as u64 <= size as u64 {
            size as u64 - done as u64
        } else {
            0
        }
    }

    /// Starts a download into a file that holds `downloaded` bytes already:
    /// one file of unknown size, processed so far.
    pub fn prepare_download(&mut self, downloaded: usize)
        ensures
            final(self).wf(),
            final(self)@ == (ProgressView {
                state: State::Running,
                index: 0,
                total_processed: downloaded,
                sizes: seq![-1i64],
                processed: seq![downloaded],
                extras: old(self)@.extras,
            }),
    {
        self.index = 0;
        self.total_processed = downloaded;
        self.state = State::Running;
        self.processed = one_usize(downloaded);
        self.sizes = one_i64(-1);
        proof {
            lemma_sum_one(downloaded);
        }
    }

    /// Forgets what was downloaded, as after the file was emptied.
    pub fn clear_downloaded(&mut self)
        requires
            old(self).wf(),
            old(self)@.processed.len() == 1,
        ensures
            final(self).wf(),
            final(self)@ == (ProgressView {
                total_processed: 0,
                processed: seq![0usize],
                ..old(self)@
            }),
    {
        self.total_processed = 0;
        self.processed = one_usize(0);
        proof {
            lemma_sum_one(0);
        }
    }

    /// Records the size of the download from the length that the response
    /// announces: that length and what the file held before. Where the sum
    /// does not fit, the size stays unknown.
    pub fn set_download_size(&mut self, content_length: i64)
        requires
            old(self).wf(),
            old(self)@.processed.len() == 1,
        ensures
            final(self).wf(),
            final(self)@ == (ProgressView {
                sizes: seq![
                    if content_length + old(self)@.processed[0] <= i64::MAX {
                        (content_length + old(self)@.processed[0]) as i64
                    } else {
                        -1i64
                    },
                ],
                ..old(self)@
            }),
    {
        let done = self.processed[0];
        let wide: i128 = content_length as i128 + done as i128;
        let size: i64 = if wide <= 0x7fff_ffff_ffff_ffffi128 {
            wide as i64
        } else {
            -1
        };
        self.sizes = one_i64(size);
    }

    /// Records `n` more bytes of file `index`. Nothing changes, and the
    /// result is `false`, where the total would not fit.
    pub fn add_processed(&mut self, index: usize, n: usize) -> (ok: bool)
        requires
            old(self).wf(),
            index < old(self)@.processed.len(),
        ensures
            final(self).wf(),
            ok == (old(self)@.total_processed + n <= usize::MAX),
            ok ==> final(self)@ == (ProgressView {
                total_processed: (old(self)@.total_processed + n) as usize,
                processed: old(self)@.processed.update(
                    index as int,
                    (old(self)@.processed[index as int] + n) as usize,
                ),
                ..old(self)@
            }),
            !ok ==> final(self)@ == old(self)@,
    {
        proof {
            lemma_sum_bounds_each(self.processed@, index as int);
        }
        match self.total_processed.checked_add(n) {
            Some(total) => {
                let done = self.processed[index] + n;
                proof {
                    lemma_sum_update(self.processed@, index as int, done);
                }
                self.processed.set(index, done);
                self.total_processed = total;
                true
            },
            None => false,
        }
    }

    /// Closes a download: the size of the file is what was processed.
    pub fn complete_download(&mut self)
        requires
            old(self).wf(),
            old(self)@.processed.len() == 1,
        ensures
            final(self).wf(),
            final(self)@.is_finish() || old(self)@.processed[0] > i64::MAX,
            final(self)@ == (ProgressView {
                sizes: seq![
                    if old(self)@.processed[0] <= i64::MAX {
                        old(self)@.processed[0] as i64
                    } else {
                        -1i64
                    },
                ],
                ..old(self)@
            }),
    {
        let done = self.processed[0];
        let size: i64 = if done as u64 <= 0x7fff_ffff_ffff_ffffu64 {
            done as u64 as i64
        } else {
            -1
        };
        self.sizes = one_i64(size);
    }

    /// Makes file `index` the current one of an upload that sends its files
    /// one by one. Unless the upload resumes, the file starts over. The
    /// files after it have nothing processed.
    pub fn prepare_single_upload(&mut self, index: usize, resume: bool)
        requires
            old(self).wf(),
            index < old(self)@.processed.len(),
        ensures
            final(self).wf(),
            final(self)@.index == index,
            final(self)@.state == old(self)@.state,
            final(self)@.sizes == old(self)@.sizes,
            final(self)@.extras == old(self)@.extras,
            final(self)@.processed.len() == old(self)@.processed.len(),
            forall|i: int|
                0 <= i < index ==> final(self)@.processed[i] == old(self)@.processed[i],
            final(self)@.processed[index as int] == (if resume {
                old(self)@.processed[index as int]
            } else {
                0
            }),
            forall|i: int|
                index < i < final(self)@.processed.len() ==> final(self)@.processed[i] == 0,
            final(self)@.total_processed == prefix_sum(old(self)@.processed, index as int)
                + final(self)@.processed[index as int],
            final(self)@ == rewound(old(self)@, index as int, resume),
    {
        self.rewind_from(index, resume);
        self.index = index;
        proof {
            assert(self@.processed =~= rewound(old(self)@, index as int, resume).processed);
        }
    }

    /// Finds the current file of an upload that sends all its files in one
    /// request, from the total processed: the first file at whose end the
    /// sizes sum to the total or more, or the first file if there is none.
    /// Then as `prepare_single_upload`.
    pub fn prepare_batch_upload(&mut self, resume: bool) -> (current: usize)
        requires
            old(self).wf(),
            old(self)@.processed.len() > 0,
        ensures
            final(self).wf(),
            current == batch_index(old(self)@.sizes, old(self)@.total_processed as int),
            current < old(self)@.processed.len(),
            final(self)@.index == current,
            final(self)@.state == old(self)@.state,
            final(self)@.sizes == old(self)@.sizes,
            final(self)@.extras == old(self)@.extras,
            final(self)@.processed.len() == old(self)@.processed.len(),
            forall|i: int|
                0 <= i < current ==> final(self)@.processed[i] == old(self)@.processed[i],
            final(self)@.processed[current as int] == (if resume {
                old(self)@.processed[current as int]
            } else {
                0
            }),
            forall|i: int|
                current < i < final(self)@.processed.len() ==> final(self)@.processed[i] == 0,
            final(self)@.total_processed == prefix_sum(old(self)@.processed, current as int)
                + final(self)@.processed[current as int],
            final(self)@ == rewound(old(self)@, current as int, resume),
    {
        let current = find_batch_index(&self.sizes, self.total_processed);
        self.rewind_from(current, resume);
        self.index = current;
        proof {
            assert(self@.processed =~= rewound(old(self)@, current as int, resume).processed);
        }
        current
    }

    #[verifier::rlimit(50)]
    fn rewind_from(&mut self, index: usize, resume: bool)
        requires
            old(self).wf(),
            index < old(self)@.processed.len(),
        ensures
            final(self).wf(),
            final(self)@.index == old(self)@.index,
            final(self)@.state == old(self)@.state,
            final(self)@.sizes == old(self)@.sizes,
            final(self)@.extras == old(self)@.extras,
            final(self)@.processed.len() == old(self)@.processed.len(),
            forall|i: int|
                0 <= i < index ==> final(self)@.processed[i] == old(self)@.processed[i],
            final(self)@.processed[index as int] == (if resume {
                old(self)@.processed[index as int]
            } else {
                0
            }),
            forall|i: int|
                index < i < final(self)@.processed.len() ==> final(self)@.processed[i] == 0,
            final(self)@.total_processed == prefix_sum(old(self)@.processed, index as int)
                + final(self)@.processed[index as int],
    {
        let ghost before = self.processed@;
        let ghost entry = self@;
        let n = self.processed.len();
        let start: usize = if resume {
            index + 1
        } else {
            index
        };
        let mut i: usize = start;
        let mut total: usize = self.total_processed;
        proof {
            lemma_sum_split(before, start as int);
            lemma_sum_nonnegative(before.skip(start as int));
        }
        while i < self.processed.len()
            invariant
                start <= i <= self.processed@.len(),
                self.processed@.len() == before.len(),
                self.sizes@ == entry.sizes,
                self.state == entry.state,
                self.index == entry.index,
                self.extras@ == entry.extras,
                entry.sizes.len() == before.len(),
                forall|j: int| 0 <= j < start ==> self.processed@[j] == before[j],
                forall|j: int| i <= j < before.len() ==> self.processed@[j] == before[j],
                forall|j: int| start <= j < i ==> self.processed@[j] == 0,
                total == sum(self.processed@),
            decreases self.processed@.len() - i,
        {
            proof {
                lemma_sum_update(self.processed@, i as int, 0);
                lemma_sum_bounds_each(self.processed@, i as int);
            }
            total = total - self.processed[i];
            self.processed.set(i, 0);
            i = i + 1;
        }
        self.total_processed = total;
        proof {
            let after = self.processed@;
            lemma_sum_split(after, start as int);
            lemma_sum_zeros(after.skip(start as int));
            assert(after.take(start as int) =~= before.take(start as int));
            if resume {
                assert(before.take(index + 1).drop_last() =~= before.take(index as int));
            }
        }
    }
}

/// The first position at whose end `sizes` sum to `total` or more, counting
/// from `from` with `so_far` summed before it; zero if there is none.
pub open spec fn batch_index_from(sizes: Seq<i64>, total: int, from: int, so_far: int) -> int
    decreases sizes.len() - from,
{
    if from >= sizes.len() {
        0
    } else if total <= so_far + sizes[from] {
        from
    } else {
        batch_index_from(sizes, total, from + 1, so_far + sizes[from])
    }
}

/// The file that an upload in one request has reached when `total` bytes
/// are processed.
pub open spec fn batch_index(sizes: Seq<i64>, total: int) -> int {
    batch_index_from(sizes, total, 0, 0)
}

proof fn lemma_batch_index_from_bound(sizes: Seq<i64>, total: int, from: int, so_far: int)
    requires
        0 <= from,
        sizes.len() > 0,
    ensures
        0 <= batch_index_from(sizes, total, from, so_far) < sizes.len(),
    decreases sizes.len() - from,
{
    if from < sizes.len() && total > so_far + sizes[from] {
        lemma_batch_index_from_bound(sizes, total, from + 1, so_far + sizes[from]);
    }
}

/// The file that an upload in one request has reached when `total` bytes
/// are processed. Sizes are summed as far as the sum fits; past that no
/// file is found and the first is taken.
#[verifier::rlimit(50)]
fn find_batch_index(sizes: &Vec<i64>, total: usize) -> (r: usize)
    requires
        sizes@.len() > 0,
    ensures
        r == batch_index(sizes@, total as int),
        r < sizes@.len(),
{
    let mut i: usize = 0;
    let mut so_far: i128 = 0;
    proof {
        lemma_batch_index_from_bound(sizes@, total as int, 0, 0);
    }
    while i < sizes.len()
        invariant
            i <= sizes@.len(),
            sizes@.len() > 0,
            -(i as int) * 0x8000_0000_0000_0000 <= so_far <= (i as int) * 0x8000_0000_0000_0000,
            batch_index(sizes@, total as int) == batch_index_from(
                sizes@,
                total as int,
                i as int,
                so_far as int,
            ),
            0 <= batch_index(sizes@, total as int) < sizes@.len(),
        decreases sizes@.len() - i,
    {
        assert((i as int) * 0x8000_0000_0000_0000 <= 0xffff_ffff_ffff_ffff
            * 0x8000_0000_0000_0000) by (nonlinear_arith)
            requires
                i <= 0xffff_ffff_ffff_ffff,
        ;
        assert((i as int + 1) * 0x8000_0000_0000_0000 == (i as int) * 0x8000_0000_0000_0000
            + 0x8000_0000_0000_0000) by (nonlinear_arith);
        let next: i128 = so_far + sizes[i] as i128;
        if total as i128 <= next {
            return i;
        }
        so_far = next;
        i = i + 1;
    }
    0
}

/// The total of processed bytes is the sum over the files, whatever was
/// done to reach this progress.
pub proof fn lemma_total_is_sum(p: ProgressView)
    requires
        p.wf(),
    ensures
        p.total_processed == sum(p.processed),
{
}

/// A progress that is finished has as many bytes processed as its sizes
/// hold together, and no size unknown.
pub proof fn lemma_finish_total(p: ProgressView)
    requires
        p.wf(),
        p.is_finish(),
    ensures
        forall|i: int| 0 <= i < p.sizes.len() ==> (#[trigger] p.sizes[i]) >= 0,
        forall|i: int| 0 <= i < p.sizes.len() ==> p.remaining(i) == 0,
{
    assert forall|i: int| 0 <= i < p.sizes.len() implies (#[trigger] p.sizes[i]) >= 0 by {
        assert(p.sizes[i] == p.processed[i]);
    }
    assert forall|i: int| 0 <= i < p.sizes.len() implies p.remaining(i) == 0 by {
        assert(p.sizes[i] == p.processed[i]);
    }
}

} // verus!
