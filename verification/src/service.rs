//! What the service answers to the commands of its callers.

use crate::error::ErrorCode;
use crate::parcel::{IpcStatusCode, Item, MsgParcel};
use crate::text::{parse_u32, parsed_u32};
use vstd::prelude::*;

verus! {

/// The most tasks that one command may make.
pub const CONSTRUCT_MAX: usize = 100;

/// The most tasks that one command may start, pause, resume, stop or
/// remove.
pub const CONTROL_MAX: usize = 500;

/// Whether a command may name `len` tasks when `max` are allowed.
pub fn check_count(len: u32, max: usize) -> (r: Result<usize, ErrorCode>)
    ensures
        r == (if len <= max {
            Ok::<usize, ErrorCode>(len as usize)
        } else {
            Err::<usize, ErrorCode>(ErrorCode::Other)
        }),
{
    if len as u64 > max as u64 {
        Err(ErrorCode::Other)
    } else {
        Ok(len as usize)
    }
}

/// The id that a text stands for, as callers write it.
pub open spec fn task_id_of(number: Option<u32>) -> Result<u32, ErrorCode> {
    match number {
        Some(id) => Ok(id),
        None => Err(ErrorCode::TaskNotFound),
    }
}

/// The id that the number of a task stands for, if it is one; a task
/// whose id is no number is not found.
pub fn task_id_from(number: Option<u32>) -> (r: Result<u32, ErrorCode>)
    ensures
        r == task_id_of(number),
{
    match number {
        Some(id) => Ok(id),
        None => Err(ErrorCode::TaskNotFound),
    }
}

/// Reads the id of a task as callers write it.
pub fn parse_task_id(text: &str) -> (r: Result<u32, ErrorCode>)
    ensures
        r == task_id_of(parsed_u32(text@)),
{
    task_id_from(parse_u32(text))
}

/// On whose behalf a command on a task is carried out: a caller that may
/// control the tasks of others acts for the owner of the task, every
/// other caller for itself, and only on its own tasks. `owner` is the
/// owner of the task, if the task is there.
pub open spec fn acting_uid(manager: bool, owner: Option<u64>, calling_uid: u64) -> Result<
    u64,
    ErrorCode,
> {
    match owner {
        None => Err(ErrorCode::TaskNotFound),
        Some(uid) => if manager || uid == calling_uid {
            Ok(uid)
        } else {
            Err(ErrorCode::TaskNotFound)
        },
    }
}

pub fn resolve_uid(manager: bool, owner: Option<u64>, calling_uid: u64) -> (r: Result<
    u64,
    ErrorCode,
>)
    ensures
        r == acting_uid(manager, owner, calling_uid),
{
    match owner {
        None => Err(ErrorCode::TaskNotFound),
        Some(uid) => {
            if manager || uid == calling_uid {
                Ok(uid)
            } else {
                Err(ErrorCode::TaskNotFound)
            }
        },
    }
}

/// The results of a command on many tasks once those of the scheduler are
/// in: a result that was settled before stays; of the others, which stand
/// at `Other`, each takes the result of the next task that was handed to
/// the scheduler, and keeps `Other` where the scheduler gave none or no
/// task is left.
pub open spec fn merged(
    rets: Seq<ErrorCode>,
    n: int,
    results: Seq<Option<ErrorCode>>,
) -> (Seq<ErrorCode>, int)
    decreases n,
{
    if n <= 0 {
        (Seq::empty(), 0)
    } else {
        let (before, used) = merged(rets, n - 1, results);
        if rets[n - 1] == ErrorCode::Other {
            if used < results.len() {
                (
                    before.push(
                        match results[used] {
                            Some(code) => code,
                            None => ErrorCode::Other,
                        },
                    ),
                    used + 1,
                )
            } else {
                (before.push(ErrorCode::Other), used)
            }
        } else {
            (before.push(rets[n - 1]), used)
        }
    }
}

/// Puts the results of the scheduler into the results of a command on
/// many tasks.
#[verifier::rlimit(50)]
pub fn merge_batch_results(rets: &mut Vec<ErrorCode>, results: &Vec<Option<ErrorCode>>)
    ensures
        final(rets)@ == merged(old(rets)@, old(rets)@.len() as int, results@).0,
{
    let ghost before = rets@;
    let n = rets.len();
    let mut used: usize = 0;
    let mut i: usize = 0;
    proof {
        assert(rets@.take(0) =~= Seq::empty());
    }
    while i < n
        invariant
            i <= n,
            n == before.len(),
            rets@.len() == n,
            used <= i,
            rets@.take(i as int) == merged(before, i as int, results@).0,
            used == merged(before, i as int, results@).1,
            forall|k: int| i <= k < n ==> rets@[k] == before[k],
        decreases n - i,
    {
        let ghost was = rets@;
        if rets[i] == ErrorCode::Other {
            if used < results.len() {
                let code = match results[used] {
                    Some(code) => code,
                    None => ErrorCode::Other,
                };
                rets.set(i, code);
                used = used + 1;
            }
        }
        proof {
            assert(rets@.take(i + 1) =~= was.take(i as int).push(rets@[i as int]));
        }
        i = i + 1;
    }
    proof {
        assert(rets@.take(n as int) =~= rets@);
    }
}

/// A filter of a search: the owner, the time of creation, and state,
/// action and mode, each by its number, where the number of `Any` matches
/// all.
pub struct Filter {
    pub bundle: String,
    pub before: i64,
    pub after: i64,
    pub state: u8,
    pub action: u8,
    pub mode: u8,
}

/// What a search looks at of a task.
pub struct SearchEntry {
    pub task_id: u32,
    pub bundle: String,
    pub ctime: i64,
    pub state: u8,
    pub action: u8,
    pub mode: u8,
}

/// Whether a task passes a filter, where `all` makes the owner count for
/// nothing.
pub open spec fn passes(f: Filter, e: SearchEntry) -> bool {
    &&& (f.bundle@ == "*"@ || f.bundle@ == e.bundle@)
    &&& f.after <= e.ctime <= f.before
    &&& (f.state == crate::info::State::Any.spec_repr() || f.state == e.state)
    &&& (f.action == crate::config::Action::Any.spec_repr() || f.action == e.action)
    &&& (f.mode == crate::config::Mode::Any.spec_repr() || f.mode == e.mode)
}

/// The ids of the first `n` tasks that pass the filter, in order.
pub open spec fn found(f: Filter, entries: Seq<SearchEntry>, n: int) -> Seq<u32>
    decreases n,
{
    if n <= 0 {
        Seq::empty()
    } else if passes(f, entries[n - 1]) {
        found(f, entries, n - 1).push(entries[n - 1].task_id)
    } else {
        found(f, entries, n - 1)
    }
}

/// The ids of the tasks that pass the filter.
pub fn search(filter: &Filter, entries: &Vec<SearchEntry>) -> (ids: Vec<u32>)
    ensures
        ids@ == found(*filter, entries@, entries@.len() as int),
{
    let star = "*".to_owned();
    let mut ids: Vec<u32> = Vec::new();
    let mut i: usize = 0;
    while i < entries.len()
        invariant
            i <= entries@.len(),
            star@ == "*"@,
            ids@ == found(*filter, entries@, i as int),
        decreases entries@.len() - i,
    {
        let e = &entries[i];
        if (filter.bundle == star || filter.bundle == e.bundle) && filter.after <= e.ctime
            && e.ctime <= filter.before && (filter.state == 0x61 || filter.state == e.state) && (
        filter.action == 2 || filter.action == e.action) && (filter.mode == 2 || filter.mode
            == e.mode) {
            ids.push(e.task_id);
        }
        i = i + 1;
    }
    ids
}

/// The bundle that a search is made for: a caller of the system may name
/// any, every other caller searches its own tasks only.
pub fn search_bundle(is_system_api: bool, requested: String, calling_bundle: String) -> (b: String)
    ensures
        b == (if is_system_api {
            requested
        } else {
            calling_bundle
        }),
{
    if is_system_api {
        requested
    } else {
        calling_bundle
    }
}

/// What is answered to a caller that asks for a task by id and token:
/// the task if it was found, and else that it is not found. `None` where
/// the scheduler gave no answer, in which case nothing is answered.
pub fn touch_reply(found: Option<bool>) -> (r: Option<ErrorCode>)
    ensures
        r == (match found {
            Some(true) => Some(ErrorCode::ErrOk),
            Some(false) => Some(ErrorCode::TaskNotFound),
            None => None,
        }),
{
    match found {
        Some(true) => Some(ErrorCode::ErrOk),
        Some(false) => Some(ErrorCode::TaskNotFound),
        None => None,
    }
}

/// Whether a task can be taken up from what is kept of it: one that is
/// not kept is not found, and one that was removed is not taken up.
pub fn get_task(kept: Option<crate::info::State>) -> (r: Result<(), ErrorCode>)
    ensures
        r == (match kept {
            None => Err::<(), ErrorCode>(ErrorCode::TaskNotFound),
            Some(crate::info::State::Removed) => Err::<(), ErrorCode>(ErrorCode::TaskStateErr),
            Some(_) => Ok::<(), ErrorCode>(()),
        }),
{
    match kept {
        None => Err(ErrorCode::TaskNotFound),
        Some(crate::info::State::Removed) => Err(ErrorCode::TaskStateErr),
        Some(_) => Ok(()),
    }
}

/// The text that stands at `pos` behind a flag that says whether there is
/// one, and the position behind it.
pub open spec fn optional_text(s: Seq<Item>, pos: int) -> Option<(Option<Seq<char>>, int)> {
    if 0 <= pos < s.len() && s[pos] is Bool {
        if s[pos]->Bool_0 {
            if pos + 1 < s.len() && s[pos + 1] is Text {
                Some((Some(s[pos + 1]->Text_0), pos + 2))
            } else {
                None
            }
        } else {
            Some((None, pos + 1))
        }
    } else {
        None
    }
}

/// How far a message is read where no optional text can be read at
/// `pos`: past the flag, if the flag is there and promises a text.
pub open spec fn optional_text_reached(s: Seq<Item>, pos: int) -> int {
    if 0 <= pos < s.len() && s[pos] is Bool && s[pos]->Bool_0 {
        pos + 1
    } else {
        pos
    }
}

/// Reads a flag, and the text behind it if the flag says that there is
/// one.
pub fn read_optional_text(data: &mut MsgParcel) -> (r: Result<Option<String>, IpcStatusCode>)
    requires
        old(data).wf(),
    ensures
        final(data).wf(),
        final(data).contents() == old(data).contents(),
        r.is_ok() == optional_text(old(data).contents(), old(data).position()).is_some(),
        r.is_err() ==> final(data).position() == optional_text_reached(
            old(data).contents(),
            old(data).position(),
        ),
        r.is_ok() ==> final(data).position() == optional_text(
            old(data).contents(),
            old(data).position(),
        ).unwrap().1 && (match r.unwrap() {
            Some(t) => Some(t@),
            None => None,
        }) == optional_text(old(data).contents(), old(data).position()).unwrap().0,
{
    proof {
        data.lemma_position_in_range();
    }
    let present = data.read_bool()?;
    if present {
        let text = data.read_text()?;
        Ok(Some(text))
    } else {
        Ok(None)
    }
}

/// Whether the notification of a task is turned off for a caller that
/// asks for it: only a caller of the system may ask, it needs the
/// permission, and only the notification of a background task is turned
/// off. A caller of the system that asks without the permission is
/// refused.
pub open spec fn notification_off(
    asked: bool,
    is_system_api: bool,
    permitted: bool,
    mode: crate::config::Mode,
) -> Result<bool, ErrorCode> {
    if asked && is_system_api {
        if !permitted {
            Err(ErrorCode::Permission)
        } else {
            Ok(mode == crate::config::Mode::BackGround)
        }
    } else {
        Ok(false)
    }
}

pub fn notification_disabled(
    asked: bool,
    is_system_api: bool,
    permitted: bool,
    mode: crate::config::Mode,
) -> (r: Result<bool, ErrorCode>)
    ensures
        r == notification_off(asked, is_system_api, permitted, mode),
{
    if asked && is_system_api {
        if !permitted {
            return Err(ErrorCode::Permission);
        }
        Ok(mode == crate::config::Mode::BackGround)
    } else {
        Ok(false)
    }
}

/// The values of the answer to a command that makes tasks: success, then
/// of each task the result and the id.
pub open spec fn construct_reply(results: Seq<(ErrorCode, u32)>) -> Seq<Item>
    decreases results.len(),
{
    if results.len() == 0 {
        seq![Item::I32(ErrorCode::ErrOk.spec_code() as i32)]
    } else {
        construct_reply(results.drop_last()).push(
            Item::I32(results.last().0.spec_code() as i32),
        ).push(Item::U32(results.last().1))
    }
}

/// Writes the answer to a command that makes tasks.
pub fn write_construct_reply(reply: &mut MsgParcel, results: &Vec<(ErrorCode, u32)>)
    requires
        old(reply).wf(),
    ensures
        final(reply).wf(),
        final(reply).position() == old(reply).position(),
        final(reply).contents() == old(reply).contents() + construct_reply(results@),
{
    let ghost before = reply.contents();
    reply.write_i32(ErrorCode::ErrOk.code());
    let mut i: usize = 0;
    proof {
        assert(results@.take(0) =~= Seq::empty());
        assert(reply.contents() =~= before + construct_reply(results@.take(0)));
    }
    while i < results.len()
        invariant
            i <= results@.len(),
            reply.wf(),
            reply.position() == old(reply).position(),
            reply.contents() == before + construct_reply(results@.take(i as int)),
        decreases results@.len() - i,
    {
        reply.write_i32(results[i].0.code());
        reply.write_u32(results[i].1);
        proof {
            let t = results@.take(i + 1);
            assert(t.drop_last() =~= results@.take(i as int));
            assert(t.last() == results@[i as int]);
            assert(reply.contents() =~= before + construct_reply(t));
        }
        i = i + 1;
    }
    proof {
        assert(results@.take(i as int) =~= results@);
    }
}

/// The values of the answer to a command on tasks that are there: success,
/// then the result of each task.
pub open spec fn control_reply(results: Seq<ErrorCode>) -> Seq<Item>
    decreases results.len(),
{
    if results.len() == 0 {
        seq![Item::I32(ErrorCode::ErrOk.spec_code() as i32)]
    } else {
        control_reply(results.drop_last()).push(Item::I32(results.last().spec_code() as i32))
    }
}

/// Writes the answer to a command on tasks that are there.
pub fn write_control_reply(reply: &mut MsgParcel, results: &Vec<ErrorCode>)
    requires
        old(reply).wf(),
    ensures
        final(reply).wf(),
        final(reply).position() == old(reply).position(),
        final(reply).contents() == old(reply).contents() + control_reply(results@),
{
    let ghost before = reply.contents();
    reply.write_i32(ErrorCode::ErrOk.code());
    let mut i: usize = 0;
    proof {
        assert(results@.take(0) =~= Seq::empty());
        assert(reply.contents() =~= before + control_reply(results@.take(0)));
    }
    while i < results.len()
        invariant
            i <= results@.len(),
            reply.wf(),
            reply.position() == old(reply).position(),
            reply.contents() == before + control_reply(results@.take(i as int)),
        decreases results@.len() - i,
    {
        reply.write_i32(results[i].code());
        proof {
            let t = results@.take(i + 1);
            assert(t.drop_last() =~= results@.take(i as int));
            assert(reply.contents() =~= before + control_reply(t));
        }
        i = i + 1;
    }
    proof {
        assert(results@.take(i as int) =~= results@);
    }
}

} // verus!
