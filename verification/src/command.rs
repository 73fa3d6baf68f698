//! The commands of callers on tasks that are there: each is read from a
//! message, carried out on the scheduler, and answered in another message.

use crate::config::Version;
use crate::error::ErrorCode;
use crate::manager::ClientManager;
use crate::parcel::{IpcStatusCode, Item, MsgParcel};
use crate::info::State;
use crate::scheduler::{
    change_outcome, commanded, entry_of, launch_outcome, launched, Scheduler, SchedulerState,
    TaskEntry,
};
use crate::service::{
    acting_uid, check_count, control_reply, found, merge_batch_results, merged, parse_task_id,
    resolve_uid, task_id_of, write_control_reply, Filter, SearchEntry, CONTROL_MAX,
};
use crate::text::{decimal, u64_to_string};
use crate::text::parsed_u32;
use std::collections::HashMap;
use vstd::prelude::*;

verus! {

/// The owner of task `id`, if the task is recorded.
pub open spec fn owner_of(tasks: Seq<TaskEntry>, id: u32) -> Option<u64> {
    match entry_of(tasks, id) {
        Some(e) => Some(e.qos.uid),
        None => None,
    }
}

/// The code that a caller gets for the result of a command.
pub open spec fn code_of(r: Result<(), ErrorCode>) -> ErrorCode {
    match r {
        Ok(()) => ErrorCode::ErrOk,
        Err(code) => code,
    }
}

/// The task that a caller means by the text `text`, if the text is a
/// number, the task is recorded and the caller may command it: its own
/// tasks, or any task with the permission to manage the tasks of others.
pub open spec fn target(
    tasks: Seq<TaskEntry>,
    text: Seq<char>,
    permission: bool,
    calling_uid: u64,
) -> Result<u32, ErrorCode> {
    match task_id_of(parsed_u32(text)) {
        Err(code) => Err(code),
        Ok(id) => match acting_uid(permission, owner_of(tasks, id), calling_uid) {
            Err(code) => Err(code),
            Ok(_) => Ok(id),
        },
    }
}

/// Finds the task that a caller means.
pub fn resolve_target(scheduler: &Scheduler, text: &str, permission: bool, calling_uid: u64) -> (r:
    Result<u32, ErrorCode>)
    ensures
        r == target(scheduler@.tasks, text@, permission, calling_uid),
{
    let id = match parse_task_id(text) {
        Ok(id) => id,
        Err(code) => {
            return Err(code);
        },
    };
    let owner = match scheduler.show(id) {
        Some(e) => Some(e.qos.uid),
        None => None,
    };
    match resolve_uid(permission, owner, calling_uid) {
        Ok(_) => Ok(id),
        Err(code) => Err(code),
    }
}

/// The results of a command with the one at `index` set, if there is one.
pub open spec fn set_at(rets: Seq<ErrorCode>, index: int, code: ErrorCode) -> Seq<ErrorCode> {
    if 0 <= index < rets.len() {
        rets.update(index, code)
    } else {
        rets
    }
}

/// Sets the result at `index`, if there is one.
pub fn set_code_with_index(rets: &mut Vec<ErrorCode>, index: usize, code: ErrorCode)
    ensures
        final(rets)@ == set_at(old(rets)@, index as int, code),
{
    if index < rets.len() {
        rets.set(index, code);
    }
}

/// Whether the next value of a message is a text.
pub open spec fn text_at(contents: Seq<Item>, pos: int) -> bool {
    0 <= pos < contents.len() && contents[pos] is Text
}

/// What a caller may ask for of a task that is there.
#[derive(Clone, Copy, PartialEq, Eq, Structural, Debug)]
pub enum Verb {
    Start,
    Pause,
    Resume,
    Stop,
    Remove,
}

/// What a command on task `id` comes to.
pub open spec fn verb_outcome(s: SchedulerState, id: u32, verb: Verb) -> Result<(), ErrorCode> {
    match verb {
        Verb::Start => launch_outcome(s, id, false),
        Verb::Resume => launch_outcome(s, id, true),
        Verb::Pause => change_outcome(entry_of(s.tasks, id), State::Paused),
        Verb::Stop => change_outcome(entry_of(s.tasks, id), State::Stopped),
        Verb::Remove => change_outcome(entry_of(s.tasks, id), State::Removed),
    }
}

/// The scheduler after a command on task `id` at `time`.
pub open spec fn verb_applied(s: SchedulerState, id: u32, verb: Verb, time: u64) -> SchedulerState {
    match verb {
        Verb::Start => launched(s, id, false, time),
        Verb::Resume => launched(s, id, true, time),
        Verb::Pause => commanded(s, id, State::Paused, time),
        Verb::Stop => commanded(s, id, State::Stopped, time),
        Verb::Remove => commanded(s, id, State::Removed, time),
    }
}

/// Carries out a command on task `id` at `time`, and returns what the
/// caller is told.
pub fn apply_verb(scheduler: &mut Scheduler, id: u32, verb: Verb, time: u64) -> (code: ErrorCode)
    requires
        old(scheduler).wf(),
    ensures
        final(scheduler).wf(),
        final(scheduler)@ == verb_applied(old(scheduler)@, id, verb, time),
        code == code_of(verb_outcome(old(scheduler)@, id, verb)),
{
    let done = match verb {
        Verb::Start => scheduler.start(id, time),
        Verb::Resume => scheduler.resume(id, time),
        Verb::Pause => scheduler.pause(id, time),
        Verb::Stop => scheduler.stop(id, time),
        Verb::Remove => scheduler.remove(id, time),
    };
    match done {
        Ok(()) => ErrorCode::ErrOk,
        Err(code) => code,
    }
}

/// The scheduler after a caller asked for a command on the task that
/// `text` names, and what the caller is told.
pub open spec fn one_applied(
    s: SchedulerState,
    text: Seq<char>,
    verb: Verb,
    permission: bool,
    calling_uid: u64,
    time: u64,
) -> (SchedulerState, ErrorCode) {
    match target(s.tasks, text, permission, calling_uid) {
        Err(code) => (s, code),
        Ok(id) => (verb_applied(s, id, verb, time), code_of(verb_outcome(s, id, verb))),
    }
}

/// Carries out a command on the one task that a message names, and puts
/// the result first among `rets`. Fails, with nothing done, where the
/// message does not go on with a text.
pub fn control_one_task(
    scheduler: &mut Scheduler,
    data: &mut MsgParcel,
    verb: Verb,
    permission: bool,
    calling_uid: u64,
    rets: &mut Vec<ErrorCode>,
    time: u64,
) -> (r: Result<(), IpcStatusCode>)
    requires
        old(scheduler).wf(),
        old(data).wf(),
    ensures
        final(scheduler).wf(),
        final(data).wf(),
        final(data).contents() == old(data).contents(),
        r.is_ok() == text_at(old(data).contents(), old(data).position()),
        r.is_err() ==> final(data).position() == old(data).position() && final(scheduler)@ == old(
            scheduler,
        )@ && final(rets)@ == old(rets)@,
        r.is_ok() ==> {
            let text = old(data).contents()[old(data).position()]->Text_0;
            let after = one_applied(old(scheduler)@, text, verb, permission, calling_uid, time);
            &&& final(data).position() == old(data).position() + 1
            &&& final(scheduler)@ == after.0
            &&& final(rets)@ == set_at(old(rets)@, 0, after.1)
        },
{
    proof {
        data.lemma_position_in_range();
    }
    let text = data.read_text()?;
    let id = match resolve_target(scheduler, text.as_str(), permission, calling_uid) {
        Ok(id) => id,
        Err(code) => {
            set_code_with_index(rets, 0, code);
            return Ok(());
        },
    };
    let code = apply_verb(scheduler, id, verb, time);
    set_code_with_index(rets, 0, code);
    Ok(())
}

/// How many of the `n` values from `pos` on can be read as texts: all of
/// them, or as many as stand before the first that is none.
pub open spec fn leading_texts(contents: Seq<Item>, pos: int, n: int) -> int
    decreases n,
{
    if n <= 0 {
        0
    } else {
        let before = leading_texts(contents, pos, n - 1);
        if before == n - 1 && text_at(contents, pos + n - 1) {
            n
        } else {
            before
        }
    }
}

/// Once a value is no text, no later one is read.
pub proof fn lemma_leading_stops(contents: Seq<Item>, pos: int, k: int, n: int)
    requires
        0 <= k < n,
        leading_texts(contents, pos, k) == k,
        !text_at(contents, pos + k),
    ensures
        leading_texts(contents, pos, n) == k,
    decreases n,
{
    if n > k + 1 {
        lemma_leading_stops(contents, pos, k, n - 1);
    }
}

/// The text that stands at `pos`.
pub open spec fn text_of(contents: Seq<Item>, pos: int) -> Seq<char> {
    contents[pos]->Text_0
}

/// The tasks that the first `k` texts from `pos` on name and that the
/// caller may command, in order.
pub open spec fn batch_targets(
    tasks: Seq<TaskEntry>,
    contents: Seq<Item>,
    pos: int,
    k: int,
    permission: bool,
    calling_uid: u64,
) -> Seq<u32>
    decreases k,
{
    if k <= 0 {
        Seq::empty()
    } else {
        let before = batch_targets(tasks, contents, pos, k - 1, permission, calling_uid);
        match target(tasks, text_of(contents, pos + k - 1), permission, calling_uid) {
            Ok(id) => before.push(id),
            Err(_) => before,
        }
    }
}

/// The results of a command once the first `k` texts from `pos` on are
/// read: where a text names no task that the caller may command, the
/// result at its place says so.
pub open spec fn batch_rets(
    rets: Seq<ErrorCode>,
    tasks: Seq<TaskEntry>,
    contents: Seq<Item>,
    pos: int,
    k: int,
    permission: bool,
    calling_uid: u64,
) -> Seq<ErrorCode>
    decreases k,
{
    if k <= 0 {
        rets
    } else {
        let before = batch_rets(rets, tasks, contents, pos, k - 1, permission, calling_uid);
        match target(tasks, text_of(contents, pos + k - 1), permission, calling_uid) {
            Ok(_) => before,
            Err(code) => set_at(before, k - 1, code),
        }
    }
}

/// Reads the `len` tasks that a message names. Returns those that the
/// caller may command; for the others the result is settled. Stops at the
/// first value that is no text, and fails.
pub fn read_batch(
    scheduler: &Scheduler,
    data: &mut MsgParcel,
    permission: bool,
    calling_uid: u64,
    rets: &mut Vec<ErrorCode>,
    len: usize,
) -> (r: Result<Vec<u32>, IpcStatusCode>)
    requires
        old(data).wf(),
    ensures
        final(data).wf(),
        final(data).contents() == old(data).contents(),
        r.is_ok() == (leading_texts(old(data).contents(), old(data).position(), len as int)
            == len),
        final(data).position() == old(data).position() + leading_texts(
            old(data).contents(),
            old(data).position(),
            len as int,
        ),
        final(rets)@ == batch_rets(
            old(rets)@,
            scheduler@.tasks,
            old(data).contents(),
            old(data).position(),
            leading_texts(old(data).contents(), old(data).position(), len as int),
            permission,
            calling_uid,
        ),
        r.is_ok() ==> r.unwrap()@ == batch_targets(
            scheduler@.tasks,
            old(data).contents(),
            old(data).position(),
            len as int,
            permission,
            calling_uid,
        ),
{
    let ghost contents = data.contents();
    let ghost pos = data.position();
    let ghost tasks = scheduler@.tasks;
    let mut ids: Vec<u32> = Vec::new();
    let mut i: usize = 0;
    proof {
        data.lemma_position_in_range();
    }
    while i < len
        invariant
            i <= len,
            data.wf(),
            data.contents() == contents,
            contents == old(data).contents(),
            pos == old(data).position(),
            0 <= pos,
            data.position() == pos + i,
            tasks == scheduler@.tasks,
            leading_texts(contents, pos, i as int) == i,
            rets@ == batch_rets(old(rets)@, tasks, contents, pos, i as int, permission, calling_uid),
            ids@ == batch_targets(tasks, contents, pos, i as int, permission, calling_uid),
        decreases len - i,
    {
        let text = match data.read_text() {
            Ok(text) => text,
            Err(e) => {
                proof {
                    lemma_leading_stops(contents, pos, i as int, len as int);
                }
                return Err(e);
            },
        };
        match resolve_target(scheduler, text.as_str(), permission, calling_uid) {
            Ok(id) => {
                ids.push(id);
            },
            Err(code) => {
                set_code_with_index(rets, i, code);
            },
        }
        i = i + 1;
    }
    Ok(ids)
}

/// The scheduler after a command was carried out on the first `n` of
/// `ids`, one after the other at `time`, and the result for each task;
/// where a task is named twice, the later result stands.
pub open spec fn all_applied(s: SchedulerState, ids: Seq<u32>, n: int, verb: Verb, time: u64) -> (
    SchedulerState,
    Map<u32, ErrorCode>,
)
    decreases n,
{
    if n <= 0 {
        (s, Map::empty())
    } else {
        let (before, results) = all_applied(s, ids, n - 1, verb, time);
        (
            verb_applied(before, ids[n - 1], verb, time),
            results.insert(ids[n - 1], code_of(verb_outcome(before, ids[n - 1], verb))),
        )
    }
}

/// Carries out a command on tasks one after the other, and returns the
/// result for each.
pub fn apply_batch(scheduler: &mut Scheduler, ids: &Vec<u32>, verb: Verb, time: u64) -> (results:
    HashMap<u32, ErrorCode>)
    requires
        old(scheduler).wf(),
    ensures
        final(scheduler).wf(),
        (final(scheduler)@, results@) == all_applied(
            old(scheduler)@,
            ids@,
            ids@.len() as int,
            verb,
            time,
        ),
{
    broadcast use vstd::std_specs::hash::group_hash_axioms;

    let mut results: HashMap<u32, ErrorCode> = HashMap::new();
    let mut i: usize = 0;
    while i < ids.len()
        invariant
            i <= ids@.len(),
            scheduler.wf(),
            (scheduler@, results@) == all_applied(old(scheduler)@, ids@, i as int, verb, time),
        decreases ids@.len() - i,
    {
        let code = apply_verb(scheduler, ids[i], verb, time);
        results.insert(ids[i], code);
        i = i + 1;
    }
    results
}

/// The result of each of `ids`, in their order, where there is one.
pub open spec fn results_of(ids: Seq<u32>, results: Map<u32, ErrorCode>) -> Seq<Option<ErrorCode>> {
    Seq::new(
        ids.len(),
        |k: int|
            if results.contains_key(ids[k]) {
                Some(results[ids[k]])
            } else {
                None
            },
    )
}

fn collect_results(ids: &Vec<u32>, results: &HashMap<u32, ErrorCode>) -> (v: Vec<Option<ErrorCode>>)
    ensures
        v@ == results_of(ids@, results@),
{
    broadcast use vstd::std_specs::hash::group_hash_axioms;

    let mut v: Vec<Option<ErrorCode>> = Vec::new();
    let mut i: usize = 0;
    while i < ids.len()
        invariant
            i <= ids@.len(),
            v@.len() == i,
            forall|k: int| 0 <= k < i ==> v@[k] == results_of(ids@, results@)[k],
        decreases ids@.len() - i,
    {
        let found = match results.get(&ids[i]) {
            Some(code) => Some(*code),
            None => None,
        };
        v.push(found);
        i = i + 1;
    }
    proof {
        assert(v@ =~= results_of(ids@, results@));
    }
    v
}

/// The scheduler and the results after a caller asked for a command on
/// the `len` tasks that a message names from `pos` on: the command is
/// carried out in order on the tasks that the caller may command, and each
/// result that was not settled while reading takes the result of the next
/// such task.
pub open spec fn batch_applied(
    s: SchedulerState,
    contents: Seq<Item>,
    pos: int,
    len: int,
    verb: Verb,
    permission: bool,
    calling_uid: u64,
    rets: Seq<ErrorCode>,
    time: u64,
) -> (SchedulerState, Seq<ErrorCode>) {
    let ids = batch_targets(s.tasks, contents, pos, len, permission, calling_uid);
    let read = batch_rets(rets, s.tasks, contents, pos, len, permission, calling_uid);
    let done = all_applied(s, ids, ids.len() as int, verb, time);
    (done.0, merged(read, read.len() as int, results_of(ids, done.1)).0)
}

/// Carries out a command on the `len` tasks that a message names, and
/// puts the results into `rets`. Fails where one of the `len` values is no
/// text: the message is then read up to that value, and nothing is done to
/// any task.
pub fn control_batch_tasks(
    scheduler: &mut Scheduler,
    data: &mut MsgParcel,
    verb: Verb,
    permission: bool,
    calling_uid: u64,
    rets: &mut Vec<ErrorCode>,
    len: usize,
    time: u64,
) -> (r: Result<(), IpcStatusCode>)
    requires
        old(scheduler).wf(),
        old(data).wf(),
    ensures
        final(scheduler).wf(),
        final(data).wf(),
        final(data).contents() == old(data).contents(),
        r.is_ok() == (leading_texts(old(data).contents(), old(data).position(), len as int)
            == len),
        final(data).position() == old(data).position() + leading_texts(
            old(data).contents(),
            old(data).position(),
            len as int,
        ),
        r.is_err() ==> final(scheduler)@ == old(scheduler)@ && final(rets)@ == batch_rets(
            old(rets)@,
            old(scheduler)@.tasks,
            old(data).contents(),
            old(data).position(),
            leading_texts(old(data).contents(), old(data).position(), len as int),
            permission,
            calling_uid,
        ),
        r.is_ok() ==> (final(scheduler)@, final(rets)@) == batch_applied(
            old(scheduler)@,
            old(data).contents(),
            old(data).position(),
            len as int,
            verb,
            permission,
            calling_uid,
            old(rets)@,
            time,
        ),
{
    let ids = read_batch(scheduler, data, permission, calling_uid, rets, len)?;
    let results = apply_batch(scheduler, &ids, verb, time);
    let in_order = collect_results(&ids, &results);
    merge_batch_results(rets, &in_order);
    Ok(())
}

/// What a command comes to: whether it succeeds, the scheduler after it,
/// how far the message is read, and what is written to the answer.
pub struct Answer {
    pub ok: bool,
    pub state: SchedulerState,
    pub position: int,
    pub reply: Seq<Item>,
}

/// Results of which none is settled.
pub open spec fn unsettled(len: int) -> Seq<ErrorCode> {
    Seq::new(len as nat, |i: int| ErrorCode::Other)
}

fn make_unsettled(len: usize) -> (v: Vec<ErrorCode>)
    ensures
        v@ == unsettled(len as int),
{
    let mut v: Vec<ErrorCode> = Vec::new();
    let mut i: usize = 0;
    while i < len
        invariant
            i <= len,
            v@.len() == i,
            forall|k: int| 0 <= k < i ==> v@[k] == ErrorCode::Other,
        decreases len - i,
    {
        v.push(ErrorCode::Other);
        i = i + 1;
    }
    proof {
        assert(v@ =~= unsettled(len as int));
    }
    v
}

/// Whether the value at `pos` is a count.
pub open spec fn count_at(contents: Seq<Item>, pos: int) -> bool {
    0 <= pos < contents.len() && contents[pos] is U32
}

/// What a command on the tasks that a message names comes to. The message
/// holds a count and then as many ids, each as a text. A message without a
/// count is refused with nothing said; a count over the limit is answered
/// with `Other`; a message that names fewer tasks than it counts is
/// refused with nothing said and nothing done. Else the answer holds
/// success and then the result for each task.
pub open spec fn control_answer(
    s: SchedulerState,
    contents: Seq<Item>,
    pos: int,
    verb: Verb,
    permission: bool,
    calling_uid: u64,
    time: u64,
) -> Answer {
    if !count_at(contents, pos) {
        Answer { ok: false, state: s, position: pos, reply: Seq::empty() }
    } else {
        let len = contents[pos]->U32_0;
        if len > CONTROL_MAX {
            Answer {
                ok: false,
                state: s,
                position: pos + 1,
                reply: seq![Item::I32(ErrorCode::Other.spec_code() as i32)],
            }
        } else if len == 1 {
            if text_at(contents, pos + 1) {
                let after = one_applied(
                    s,
                    text_of(contents, pos + 1),
                    verb,
                    permission,
                    calling_uid,
                    time,
                );
                Answer {
                    ok: true,
                    state: after.0,
                    position: pos + 2,
                    reply: control_reply(seq![after.1]),
                }
            } else {
                Answer { ok: false, state: s, position: pos + 1, reply: Seq::empty() }
            }
        } else {
            let read = leading_texts(contents, pos + 1, len as int);
            if read == len {
                let after = batch_applied(
                    s,
                    contents,
                    pos + 1,
                    len as int,
                    verb,
                    permission,
                    calling_uid,
                    unsettled(len as int),
                    time,
                );
                Answer {
                    ok: true,
                    state: after.0,
                    position: pos + 1 + len,
                    reply: control_reply(after.1),
                }
            } else {
                Answer { ok: false, state: s, position: pos + 1 + read, reply: Seq::empty() }
            }
        }
    }
}

/// Whether a command did what `answer` says.
pub open spec fn answered(
    answer: Answer,
    ok: bool,
    scheduler: SchedulerState,
    position: int,
    reply_before: Seq<Item>,
    reply_after: Seq<Item>,
) -> bool {
    &&& ok == answer.ok
    &&& scheduler == answer.state
    &&& position == answer.position
    &&& reply_after == reply_before + answer.reply
}

/// Carries out a command on the tasks that a message names, and writes
/// the answer.
pub fn control(
    scheduler: &mut Scheduler,
    data: &mut MsgParcel,
    reply: &mut MsgParcel,
    verb: Verb,
    permission: bool,
    calling_uid: u64,
    time: u64,
) -> (r: Result<(), IpcStatusCode>)
    requires
        old(scheduler).wf(),
        old(data).wf(),
        old(reply).wf(),
    ensures
        final(scheduler).wf(),
        final(data).wf(),
        final(reply).wf(),
        final(data).contents() == old(data).contents(),
        final(reply).position() == old(reply).position(),
        answered(
            control_answer(
                old(scheduler)@,
                old(data).contents(),
                old(data).position(),
                verb,
                permission,
                calling_uid,
                time,
            ),
            r.is_ok(),
            final(scheduler)@,
            final(data).position(),
            old(reply).contents(),
            final(reply).contents(),
        ),
{
    proof {
        data.lemma_position_in_range();
    }
    let ghost before = reply.contents();
    let count = match data.read_u32() {
        Ok(count) => count,
        Err(e) => {
            proof {
                assert(before + Seq::<Item>::empty() =~= before);
            }
            return Err(e);
        },
    };
    let len = match check_count(count, CONTROL_MAX) {
        Ok(len) => len,
        Err(code) => {
            reply.write_i32(code.code());
            proof {
                assert(before.push(Item::I32(ErrorCode::Other.spec_code() as i32)) =~= before
                    + seq![Item::I32(ErrorCode::Other.spec_code() as i32)]);
            }
            return Err(IpcStatusCode::Failed);
        },
    };
    let mut rets = make_unsettled(len);
    let done = if len == 1 {
        control_one_task(scheduler, data, verb, permission, calling_uid, &mut rets, time)
    } else {
        control_batch_tasks(scheduler, data, verb, permission, calling_uid, &mut rets, len, time)
    };
    match done {
        Ok(()) => {
            proof {
                if len == 1 {
                    assert(rets@ =~= seq![rets@[0]]);
                }
            }
            write_control_reply(reply, &rets);
            Ok(())
        },
        Err(e) => {
            proof {
                assert(before + Seq::<Item>::empty() =~= before);
            }
            Err(e)
        },
    }
}

/// What a caller is answered that may not start tasks.
pub open spec fn refused(s: SchedulerState, pos: int) -> Answer {
    Answer {
        ok: false,
        state: s,
        position: pos,
        reply: seq![Item::I32(ErrorCode::Permission.spec_code() as i32)],
    }
}

/// Starts the tasks that a message names, and writes the answer. The
/// caller needs the permission to use the network, or that to manage the
/// tasks of others.
pub fn start(
    scheduler: &mut Scheduler,
    data: &mut MsgParcel,
    reply: &mut MsgParcel,
    internet: bool,
    permission: bool,
    calling_uid: u64,
    time: u64,
) -> (r: Result<(), IpcStatusCode>)
    requires
        old(scheduler).wf(),
        old(data).wf(),
        old(reply).wf(),
    ensures
        final(scheduler).wf(),
        final(data).wf(),
        final(reply).wf(),
        final(data).contents() == old(data).contents(),
        final(reply).position() == old(reply).position(),
        answered(
            if !internet && !permission {
                refused(old(scheduler)@, old(data).position())
            } else {
                control_answer(
                    old(scheduler)@,
                    old(data).contents(),
                    old(data).position(),
                    Verb::Start,
                    permission,
                    calling_uid,
                    time,
                )
            },
            r.is_ok(),
            final(scheduler)@,
            final(data).position(),
            old(reply).contents(),
            final(reply).contents(),
        ),
{
    if !internet && !permission {
        let ghost before = reply.contents();
        reply.write_i32(ErrorCode::Permission.code());
        proof {
            assert(before.push(Item::I32(ErrorCode::Permission.spec_code() as i32)) =~= before
                + seq![Item::I32(ErrorCode::Permission.spec_code() as i32)]);
        }
        return Err(IpcStatusCode::Failed);
    }
    control(scheduler, data, reply, Verb::Start, permission, calling_uid, time)
}

/// What pausing one task comes to for a caller that names its version
/// first: under the legacy version the caller needs the permission to use
/// the network; the task must be its own; the answer is the result, and
/// the command fails unless the task was paused.
pub open spec fn pause_answer(
    s: SchedulerState,
    contents: Seq<Item>,
    pos: int,
    internet: bool,
    calling_uid: u64,
    time: u64,
) -> Answer {
    if !count_at(contents, pos) {
        Answer { ok: false, state: s, position: pos, reply: Seq::empty() }
    } else if Version::spec_from_u8(contents[pos]->U32_0 as u8) == Version::API9 && !internet {
        Answer {
            ok: false,
            state: s,
            position: pos + 1,
            reply: seq![Item::I32(ErrorCode::Permission.spec_code() as i32)],
        }
    } else if !text_at(contents, pos + 1) {
        Answer { ok: false, state: s, position: pos + 1, reply: Seq::empty() }
    } else {
        let after = one_applied(
            s,
            text_of(contents, pos + 1),
            Verb::Pause,
            false,
            calling_uid,
            time,
        );
        Answer {
            ok: after.1 == ErrorCode::ErrOk,
            state: after.0,
            position: pos + 2,
            reply: seq![Item::I32(after.1.spec_code() as i32)],
        }
    }
}

/// Pauses the one task that a message names behind the version of the
/// caller, and writes the answer.
pub fn pause(
    scheduler: &mut Scheduler,
    data: &mut MsgParcel,
    reply: &mut MsgParcel,
    internet: bool,
    calling_uid: u64,
    time: u64,
) -> (r: Result<(), IpcStatusCode>)
    requires
        old(scheduler).wf(),
        old(data).wf(),
        old(reply).wf(),
    ensures
        final(scheduler).wf(),
        final(data).wf(),
        final(reply).wf(),
        final(data).contents() == old(data).contents(),
        final(reply).position() == old(reply).position(),
        answered(
            pause_answer(
                old(scheduler)@,
                old(data).contents(),
                old(data).position(),
                internet,
                calling_uid,
                time,
            ),
            r.is_ok(),
            final(scheduler)@,
            final(data).position(),
            old(reply).contents(),
            final(reply).contents(),
        ),
{
    proof {
        data.lemma_position_in_range();
    }
    let ghost before = reply.contents();
    proof {
        assert(before + Seq::<Item>::empty() =~= before);
    }
    let version = data.read_u32()?;
    if Version::from_u8(version as u8) == Version::API9 && !internet {
        reply.write_i32(ErrorCode::Permission.code());
        proof {
            assert(before.push(Item::I32(ErrorCode::Permission.spec_code() as i32)) =~= before
                + seq![Item::I32(ErrorCode::Permission.spec_code() as i32)]);
        }
        return Err(IpcStatusCode::Failed);
    }
    let text = data.read_text()?;
    let code = match resolve_target(scheduler, text.as_str(), false, calling_uid) {
        Ok(id) => apply_verb(scheduler, id, Verb::Pause, time),
        Err(code) => code,
    };
    reply.write_i32(code.code());
    proof {
        assert(before.push(Item::I32(code.spec_code() as i32)) =~= before + seq![
            Item::I32(code.spec_code() as i32),
        ]);
    }
    if code == ErrorCode::ErrOk {
        Ok(())
    } else {
        Err(IpcStatusCode::Failed)
    }
}

/// The subscriptions after a caller asked to end the one to the task that
/// `text` names: it is ended if the task is the caller's own.
pub open spec fn unsubscribed(
    subscriptions: Map<u32, u64>,
    tasks: Seq<TaskEntry>,
    text: Seq<char>,
    calling_uid: u64,
) -> Map<u32, u64> {
    match target(tasks, text, false, calling_uid) {
        Ok(id) => subscriptions.remove(id),
        Err(_) => subscriptions,
    }
}

/// Whether a caller that asks to end the subscription to the task that
/// `text` names succeeds: the task must be its own, and its subscriber must
/// still have a channel.
pub open spec fn unsubscribe_succeeds(
    clients: &ClientManager,
    tasks: Seq<TaskEntry>,
    text: Seq<char>,
    calling_uid: u64,
) -> bool {
    match target(tasks, text, false, calling_uid) {
        Ok(id) => clients.spec_route(id).is_some(),
        Err(_) => false,
    }
}

/// Ends the subscription to the task that a message names, and writes the
/// answer: success, or that the task is not found. Fails, with nothing
/// said, where the message does not go on with a text.
pub fn unsubscribe(
    scheduler: &Scheduler,
    clients: &mut ClientManager,
    data: &mut MsgParcel,
    reply: &mut MsgParcel,
    calling_uid: u64,
) -> (r: Result<(), IpcStatusCode>)
    requires
        old(data).wf(),
        old(reply).wf(),
    ensures
        final(data).wf(),
        final(reply).wf(),
        final(data).contents() == old(data).contents(),
        final(reply).position() == old(reply).position(),
        final(clients).clients() == old(clients).clients(),
        !text_at(old(data).contents(), old(data).position()) ==> r.is_err() && final(data).position() == old(data).position() && final(reply).contents() == old(reply).contents()
            && final(clients).subscriptions() == old(clients).subscriptions(),
        text_at(old(data).contents(), old(data).position()) ==> {
            let text = text_of(old(data).contents(), old(data).position());
            let ok = unsubscribe_succeeds(old(clients), scheduler@.tasks, text, calling_uid);
            &&& r.is_ok() == ok
            &&& final(data).position() == old(data).position() + 1
            &&& final(clients).subscriptions() == unsubscribed(
                old(clients).subscriptions(),
                scheduler@.tasks,
                text,
                calling_uid,
            )
            &&& final(reply).contents() == old(reply).contents().push(
                Item::I32(
                    (if ok {
                        ErrorCode::ErrOk
                    } else {
                        ErrorCode::TaskNotFound
                    }).spec_code() as i32,
                ),
            )
        },
{
    proof {
        data.lemma_position_in_range();
    }
    let text = data.read_text()?;
    let id = match resolve_target(scheduler, text.as_str(), false, calling_uid) {
        Ok(id) => id,
        Err(_) => {
            reply.write_i32(ErrorCode::TaskNotFound.code());
            return Err(IpcStatusCode::Failed);
        },
    };
    if clients.handle_unsubscribe(id) == ErrorCode::ErrOk {
        reply.write_i32(ErrorCode::ErrOk.code());
        Ok(())
    } else {
        reply.write_i32(ErrorCode::TaskNotFound.code());
        Err(IpcStatusCode::Failed)
    }
}

/// Answers a process that asks for a channel. `fd` is the caller's end of
/// the channel of the process: the one that there is, or a new one, or
/// none where none could be made. With an end the process has a channel
/// from then on, and the answer holds success and the end; without, the
/// answer says that the request was wrong.
pub fn open_channel(clients: &mut ClientManager, reply: &mut MsgParcel, pid: u64, fd: Option<i32>) -> (r:
    Result<(), IpcStatusCode>)
    requires
        old(reply).wf(),
    ensures
        final(reply).wf(),
        final(reply).position() == old(reply).position(),
        final(clients).subscriptions() == old(clients).subscriptions(),
        r.is_ok() == fd.is_some(),
        match fd {
            Some(end) => final(clients).clients() == old(clients).clients().insert(pid) && final(reply).contents() == old(reply).contents().push(
                Item::I32(ErrorCode::ErrOk.spec_code() as i32),
            ).push(Item::Fd(end)),
            None => final(clients).clients() == old(clients).clients() && final(reply).contents()
                == old(reply).contents().push(
                Item::I32(ErrorCode::ParameterCheck.spec_code() as i32),
            ),
        },
{
    match fd {
        Some(end) => {
            let _ = clients.handle_open_channel(pid, true);
            proof {
                if old(clients).clients().contains(pid) {
                    assert(old(clients).clients().insert(pid) =~= old(clients).clients());
                }
            }
            reply.write_i32(ErrorCode::ErrOk.code());
            reply.write_fd(end);
            Ok(())
        },
        None => {
            reply.write_i32(ErrorCode::ParameterCheck.code());
            Err(IpcStatusCode::Failed)
        },
    }
}

/// How many of the six values of a search stand in a message from `pos`
/// on, counted up to the first that is missing: the owner, the two times,
/// and state, action and mode.
pub open spec fn search_fields(contents: Seq<Item>, pos: int) -> int {
    if !text_at(contents, pos) {
        0
    } else if !(pos + 1 < contents.len() && contents[pos + 1] is I64) {
        1
    } else if !(pos + 2 < contents.len() && contents[pos + 2] is I64) {
        2
    } else if !count_at(contents, pos + 3) {
        3
    } else if !count_at(contents, pos + 4) {
        4
    } else if !count_at(contents, pos + 5) {
        5
    } else {
        6
    }
}

/// The filter that a message holds from `pos` on, for a caller of the
/// system, which may name any owner, or for another, which searches its
/// own tasks.
pub open spec fn filter_at(
    contents: Seq<Item>,
    pos: int,
    is_system_api: bool,
    calling_bundle: Seq<char>,
) -> (Seq<char>, i64, i64, u8, u8, u8) {
    (
        if is_system_api {
            text_of(contents, pos)
        } else {
            calling_bundle
        },
        contents[pos + 1]->I64_0,
        contents[pos + 2]->I64_0,
        contents[pos + 3]->U32_0 as u8,
        contents[pos + 4]->U32_0 as u8,
        contents[pos + 5]->U32_0 as u8,
    )
}

/// The values that answer a search: how many tasks were found, and the id
/// of each as a text.
pub open spec fn search_reply(ids: Seq<u32>) -> Seq<Item> {
    seq![Item::U32(ids.len() as u32)] + Seq::new(
        ids.len(),
        |k: int| Item::Text(decimal(ids[k] as nat)),
    )
}

/// Searches the tasks for those that pass the filter of a message, and
/// writes the answer. Fails, with nothing said, where the message does not
/// hold the six values of a filter.
pub fn search(
    data: &mut MsgParcel,
    reply: &mut MsgParcel,
    is_system_api: bool,
    calling_bundle: String,
    entries: &Vec<SearchEntry>,
) -> (r: Result<(), IpcStatusCode>)
    requires
        old(data).wf(),
        old(reply).wf(),
    ensures
        final(data).wf(),
        final(reply).wf(),
        final(data).contents() == old(data).contents(),
        final(reply).position() == old(reply).position(),
        r.is_ok() == (search_fields(old(data).contents(), old(data).position()) == 6),
        final(data).position() == old(data).position() + search_fields(
            old(data).contents(),
            old(data).position(),
        ),
        r.is_err() ==> final(reply).contents() == old(reply).contents(),
        r.is_ok() ==> exists|f: Filter|
            (f.bundle@, f.before, f.after, f.state, f.action, f.mode) == filter_at(
                old(data).contents(),
                old(data).position(),
                is_system_api,
                calling_bundle@,
            ) && final(reply).contents() == old(reply).contents() + search_reply(
                #[trigger] found(f, entries@, entries@.len() as int),
            ),
{
    proof {
        data.lemma_position_in_range();
    }
    let requested = data.read_text()?;
    let bundle = crate::service::search_bundle(is_system_api, requested, calling_bundle);
    let before = data.read_i64()?;
    let after = data.read_i64()?;
    let state = data.read_u32()?;
    let action = data.read_u32()?;
    let mode = data.read_u32()?;
    let filter = Filter {
        bundle,
        before,
        after,
        state: state as u8,
        action: action as u8,
        mode: mode as u8,
    };
    let ids = crate::service::search(&filter, entries);
    write_search_reply(reply, &ids);
    Ok(())
}

fn write_search_reply(reply: &mut MsgParcel, ids: &Vec<u32>)
    requires
        old(reply).wf(),
    ensures
        final(reply).wf(),
        final(reply).position() == old(reply).position(),
        final(reply).contents() == old(reply).contents() + search_reply(ids@),
{
    let ghost before = reply.contents();
    reply.write_u32(ids.len() as u32);
    let mut i: usize = 0;
    while i < ids.len()
        invariant
            i <= ids@.len(),
            reply.wf(),
            reply.position() == old(reply).position(),
            reply.contents().len() == before.len() + 1 + i,
            forall|k: int| 0 <= k < before.len() ==> reply.contents()[k] == before[k],
            reply.contents()[before.len() as int] == Item::U32(ids@.len() as u32),
            forall|k: int|
                0 <= k < i ==> reply.contents()[before.len() + 1 + k] == Item::Text(
                    decimal(ids@[k] as nat),
                ),
        decreases ids@.len() - i,
    {
        let text = u64_to_string(ids[i] as u64);
        reply.write_text(&text);
        i = i + 1;
    }
    proof {
        assert(reply.contents() =~= before + search_reply(ids@));
    }
}

} // verus!
