//! The messages that a client process is sent, as bytes.

use crate::config::Version;
use crate::manager::{coalesce_progress, is_sent, lemma_coalesce, sent_positions, EventKey};
use crate::notify::{EachFileStatus, NotifyData, SubscribeType, WaitingCause};
use crate::reason::Reason;
use crate::strmap::StringMap;
use crate::wire::{
    as_unsigned, le16, le32, le64, put_bytes, put_cstr, put_i64, put_str, put_u16, put_u32,
    put_u64,
};
use vstd::prelude::*;
use vstd::string::StringSliceAdditionalSpecFns;
use vstd::utf8::encode_utf8;

verus! {

/// The number that every message begins with.
pub const REQUEST_MAGIC_NUM: u32 = 0x43434646;

/// The most bytes of header fields that a message carries.
pub const HEADERS_MAX_SIZE: u16 = 8192;

/// Where the length of a message stands in it.
pub const POSITION_OF_LENGTH: u32 = 10;

/// The length of the part of a message that is the same for every kind.
pub const FRAME_LEN: usize = 12;

/// The kinds of messages.
#[derive(Clone, Copy, PartialEq, Eq, Structural, Debug)]
pub enum MessageType {
    HttpResponse,
    NotifyData,
    Faults,
    Waiting,
}

impl MessageType {
    pub open spec fn spec_repr(self) -> u16 {
        match self {
            MessageType::HttpResponse => 0,
            MessageType::NotifyData => 1,
            MessageType::Faults => 2,
            MessageType::Waiting => 3,
        }
    }

    pub fn repr(self) -> (n: u16)
        ensures
            n == self.spec_repr(),
    {
        match self {
            MessageType::HttpResponse => 0,
            MessageType::NotifyData => 1,
            MessageType::Faults => 2,
            MessageType::Waiting => 3,
        }
    }
}

/// A message that says of itself that it is `len` bytes long: the magic
/// number, the id of the message, its kind, the length, and the payload.
pub open spec fn frame_with_len(id: u32, kind: MessageType, len: u16, payload: Seq<u8>) -> Seq<u8> {
    le32(REQUEST_MAGIC_NUM) + le32(id) + le16(kind.spec_repr()) + le16(len) + payload
}

/// The length that a message with this payload says of itself: its length
/// in bytes as far as sixteen bits hold it.
pub open spec fn frame_len(payload: Seq<u8>) -> u16 {
    ((FRAME_LEN + payload.len()) % 0x1_0000) as u16
}

/// A message.
pub open spec fn frame(id: u32, kind: MessageType, payload: Seq<u8>) -> Seq<u8> {
    frame_with_len(id, kind, frame_len(payload), payload)
}

/// The id of the message after the one with `id`.
pub open spec fn next_id(id: u32) -> u32 {
    if id == u32::MAX {
        0
    } else {
        (id + 1) as u32
    }
}

fn build_frame(id: u32, kind: MessageType, len: u16, payload: &Vec<u8>) -> (m: Vec<u8>)
    ensures
        m@ == frame_with_len(id, kind, len, payload@),
{
    let mut m: Vec<u8> = Vec::new();
    put_u32(&mut m, REQUEST_MAGIC_NUM);
    put_u32(&mut m, id);
    put_u16(&mut m, kind.repr());
    put_u16(&mut m, len);
    put_bytes(&mut m, payload.as_slice());
    proof {
        assert(m@ =~= frame_with_len(id, kind, len, payload@));
    }
    m
}

fn length_of(payload: &Vec<u8>) -> (n: u16)
    ensures
        n == frame_len(payload@),
{
    let low: usize = payload.len() % 0x1_0000;
    ((low + FRAME_LEN) % 0x1_0000) as u16
}

/// The sender of the messages to one client process. Every message gets
/// the id after that of the one before.
pub struct Client {
    pub pid: u64,
    pub message_id: u32,
}

/// The payload of a message that tells of a fault.
pub open spec fn faults_payload(tid: u32, subscribe_type: SubscribeType, reason: Reason) -> Seq<u8> {
    le32(tid) + le32(subscribe_type.spec_repr()) + le32(reason.spec_repr() as u32)
}

/// The payload of a message that tells why a task waits.
pub open spec fn waiting_payload(task_id: u32, cause: WaitingCause) -> Seq<u8> {
    le32(task_id) + le32(cause.spec_repr())
}

/// One header field of a response: its name and its values.
pub struct HeaderField {
    pub name: String,
    pub values: Vec<Vec<u8>>,
}

/// The values of a header field.
pub open spec fn values_view(v: Seq<Vec<u8>>) -> Seq<Seq<u8>> {
    Seq::new(v.len(), |i: int| v[i]@)
}

/// The bytes that the values of a field have together.
pub open spec fn values_weight(v: Seq<Seq<u8>>) -> int
    decreases v.len(),
{
    if v.len() == 0 {
        0
    } else {
        values_weight(v.drop_last()) + v.last().len()
    }
}

/// The bytes that a field counts for against the limit: those of its name
/// and of its values.
pub open spec fn field_weight(f: HeaderField) -> int {
    encode_utf8(f.name@).len() + values_weight(values_view(f.values@))
}

/// The values of a field with commas between them.
pub open spec fn joined(v: Seq<Seq<u8>>) -> Seq<u8>
    decreases v.len(),
{
    if v.len() == 0 {
        Seq::empty()
    } else if v.len() == 1 {
        v[0]
    } else {
        joined(v.drop_last()).push(44u8) + v.last()
    }
}

/// A field as a line: name, colon, values, line feed.
pub open spec fn field_line(f: HeaderField) -> Seq<u8> {
    (encode_utf8(f.name@).push(58u8) + joined(values_view(f.values@))).push(10u8)
}

/// The lines of fields, one after the other.
pub open spec fn field_lines(fields: Seq<HeaderField>) -> Seq<u8>
    decreases fields.len(),
{
    if fields.len() == 0 {
        Seq::empty()
    } else {
        field_lines(fields.drop_last()) + field_line(fields.last())
    }
}

/// How many of the weights from position `i` on are taken when `used` is
/// taken already and `budget` may be taken in all: the position of the
/// first weight that does not fit.
pub open spec fn kept_from(weights: Seq<int>, i: int, used: int, budget: int) -> int
    decreases weights.len() - i,
{
    if i >= weights.len() {
        weights.len() as int
    } else if used + weights[i] > budget {
        i
    } else {
        kept_from(weights, i + 1, used + weights[i], budget)
    }
}

/// The weights of fields.
pub open spec fn field_weights(fields: Seq<HeaderField>) -> Seq<int> {
    Seq::new(fields.len(), |i: int| field_weight(fields[i]))
}

/// How many of the fields a response message carries: the leading ones
/// that count for no more than the limit together.
pub open spec fn fields_kept(fields: Seq<HeaderField>) -> int {
    kept_from(field_weights(fields), 0, 0, HEADERS_MAX_SIZE as int)
}

/// The payload of a message that tells of a response: task, version,
/// status, reason and the header fields that are kept.
pub open spec fn response_payload(
    tid: u32,
    version: Seq<char>,
    status_code: u32,
    reason: Seq<char>,
    fields: Seq<HeaderField>,
) -> Seq<u8> {
    le32(tid) + encode_utf8(version).push(0u8) + le32(status_code) + encode_utf8(reason).push(0u8)
        + field_lines(fields.take(fields_kept(fields)))
}

/// A message that tells of a response. One that would say of itself that
/// it is longer than the limit is cut at the limit.
pub open spec fn response_message(id: u32, payload: Seq<u8>) -> Seq<u8> {
    if frame_len(payload) > HEADERS_MAX_SIZE {
        frame_with_len(id, MessageType::HttpResponse, HEADERS_MAX_SIZE, payload).take(
            HEADERS_MAX_SIZE as int,
        )
    } else {
        frame(id, MessageType::HttpResponse, payload)
    }
}

/// The weight of a field where it is at most `budget`, else `None`.
#[verifier::rlimit(50)]
fn weight_within(f: &HeaderField, budget: usize) -> (w: Option<usize>)
    ensures
        w.is_some() == (field_weight(*f) <= budget),
        w.is_some() ==> w.unwrap() == field_weight(*f),
{
    let name_len = f.name.as_str().as_bytes().len();
    if name_len > budget {
        proof {
            lemma_values_weight_nonnegative(values_view(f.values@));
        }
        return None;
    }
    let mut total: usize = name_len;
    let mut i: usize = 0;
    let ghost vv = values_view(f.values@);
    proof {
        assert(vv.take(0) =~= Seq::empty());
    }
    while i < f.values.len()
        invariant
            i <= f.values@.len(),
            vv == values_view(f.values@),
            total <= budget,
            total == encode_utf8(f.name@).len() + values_weight(vv.take(i as int)),
        decreases f.values@.len() - i,
    {
        let n = f.values[i].len();
        proof {
            assert(vv.take(i + 1).drop_last() =~= vv.take(i as int));
            assert(vv.take(i + 1).last() == f.values@[i as int]@);
        }
        if n > budget - total {
            proof {
                lemma_values_weight_monotone(vv, i + 1);
            }
            return None;
        }
        total = total + n;
        i = i + 1;
    }
    proof {
        assert(vv.take(i as int) =~= vv);
    }
    Some(total)
}

proof fn lemma_values_weight_nonnegative(v: Seq<Seq<u8>>)
    ensures
        values_weight(v) >= 0,
    decreases v.len(),
{
    if v.len() > 0 {
        lemma_values_weight_nonnegative(v.drop_last());
    }
}

proof fn lemma_values_weight_monotone(v: Seq<Seq<u8>>, n: int)
    requires
        0 <= n <= v.len(),
    ensures
        values_weight(v.take(n)) <= values_weight(v),
    decreases v.len(),
{
    if n == v.len() {
        assert(v.take(n) =~= v);
    } else {
        lemma_values_weight_monotone(v.drop_last(), n);
        assert(v.drop_last().take(n) =~= v.take(n));
    }
}

fn put_joined(buf: &mut Vec<u8>, values: &Vec<Vec<u8>>)
    ensures
        final(buf)@ == old(buf)@ + joined(values_view(values@)),
{
    let ghost vv = values_view(values@);
    let mut i: usize = 0;
    proof {
        assert(vv.take(0) =~= Seq::empty());
        assert(buf@ =~= old(buf)@ + joined(vv.take(0)));
    }
    while i < values.len()
        invariant
            i <= values@.len(),
            vv == values_view(values@),
            buf@ == old(buf)@ + joined(vv.take(i as int)),
        decreases values@.len() - i,
    {
        let ghost before = buf@;
        if i != 0 {
            buf.push(44u8);
        }
        put_bytes(buf, values[i].as_slice());
        proof {
            let t = vv.take(i + 1);
            assert(t.drop_last() =~= vv.take(i as int));
            assert(t.last() == values@[i as int]@);
            if i == 0 {
                assert(vv.take(0) =~= Seq::empty());
                assert(buf@ =~= old(buf)@ + joined(t));
            } else {
                assert(buf@ =~= old(buf)@ + joined(t));
            }
        }
        i = i + 1;
    }
    proof {
        assert(vv.take(i as int) =~= vv);
    }
}

#[verifier::rlimit(50)]
fn put_fields(buf: &mut Vec<u8>, fields: &Vec<HeaderField>)
    ensures
        final(buf)@ == old(buf)@ + field_lines(fields@.take(fields_kept(fields@))),
{
    let ghost weights = field_weights(fields@);
    let budget: usize = 8192;
    let mut used: usize = 0;
    let mut i: usize = 0;
    proof {
        assert(fields@.take(0) =~= Seq::empty());
        assert(buf@ =~= old(buf)@ + field_lines(fields@.take(0)));
    }
    while i < fields.len()
        invariant
            i <= fields@.len(),
            used <= budget,
            budget == HEADERS_MAX_SIZE,
            weights == field_weights(fields@),
            fields_kept(fields@) == kept_from(weights, i as int, used as int, budget as int),
            buf@ == old(buf)@ + field_lines(fields@.take(i as int)),
        decreases fields@.len() - i,
    {
        let f = &fields[i];
        match weight_within(f, budget - used) {
            None => {
                return ;
            },
            Some(w) => {
                used = used + w;
            },
        }
        put_str(buf, f.name.as_str());
        buf.push(58u8);
        put_joined(buf, &f.values);
        buf.push(10u8);
        proof {
            let t = fields@.take(i + 1);
            assert(t.drop_last() =~= fields@.take(i as int));
            assert(t.last() == fields@[i as int]);
            assert(buf@ =~= old(buf)@ + field_lines(t));
        }
        i = i + 1;
    }
}

/// The weights of the extras: key and value of each.
pub open spec fn extra_weights(extras: Seq<(Seq<char>, Seq<char>)>) -> Seq<int> {
    Seq::new(
        extras.len(),
        |i: int| (encode_utf8(extras[i].0).len() + encode_utf8(extras[i].1).len()) as int,
    )
}

/// How many of the extras a message carries: the leading ones that count
/// for less than the limit together.
pub open spec fn extras_kept(extras: Seq<(Seq<char>, Seq<char>)>) -> int {
    kept_from(extra_weights(extras), 0, 0, HEADERS_MAX_SIZE - 1)
}

/// Extras as bytes: key and value of each, a zero byte behind either.
pub open spec fn extras_bytes(extras: Seq<(Seq<char>, Seq<char>)>) -> Seq<u8>
    decreases extras.len(),
{
    if extras.len() == 0 {
        Seq::empty()
    } else {
        extras_bytes(extras.drop_last()) + encode_utf8(extras.last().0).push(0u8) + encode_utf8(
            extras.last().1,
        ).push(0u8)
    }
}

/// Sizes as bytes, eight each.
pub open spec fn sizes_bytes(sizes: Seq<i64>) -> Seq<u8>
    decreases sizes.len(),
{
    if sizes.len() == 0 {
        Seq::empty()
    } else {
        sizes_bytes(sizes.drop_last()) + le64(as_unsigned(sizes.last()))
    }
}

/// The outcomes of the files as bytes: of each the path, which only the
/// legacy version sends, its cause and its message.
pub open spec fn statuses_bytes(statuses: Seq<EachFileStatus>, version: Version) -> Seq<u8>
    decreases statuses.len(),
{
    if statuses.len() == 0 {
        Seq::empty()
    } else {
        let s = statuses.last();
        statuses_bytes(statuses.drop_last(), version) + (if version == Version::API9 {
            encode_utf8(s.path@)
        } else {
            Seq::empty()
        }).push(0u8) + le32(s.reason.spec_repr() as u32) + encode_utf8(s.message@).push(0u8)
    }
}

/// The number as far as 32 bits hold it.
pub open spec fn low32(n: int) -> u32 {
    (n % 0x1_0000_0000) as u32
}

/// The first part of the payload of an event: the kind, the task, its
/// state, the current file with its processed bytes, the total, and the
/// sizes.
pub open spec fn notify_head(subscribe_type: SubscribeType, data: NotifyData) -> Seq<u8> {
    let p = data.progress@;
    le32(subscribe_type.spec_repr()) + le32(data.task_id) + le32(p.state.spec_repr() as u32)
        + le32(low32(p.index as int)) + le64(p.processed[p.index as int] as u64) + le64(
        p.total_processed as u64,
    ) + le32(low32(p.sizes.len() as int)) + sizes_bytes(p.sizes)
}

/// The second part of the payload of an event: the extras that are kept,
/// the action, the version, and the outcomes of the files.
pub open spec fn notify_tail(data: NotifyData) -> Seq<u8> {
    let p = data.progress@;
    le32(low32(extras_kept(p.extras))) + extras_bytes(p.extras.take(extras_kept(p.extras)))
        + le32(data.action.spec_repr() as u32) + le32(data.version.spec_repr() as u32) + le32(
        low32(data.each_file_status@.len() as int),
    ) + statuses_bytes(data.each_file_status@, data.version)
}

/// The payload of a message that carries an event of a task.
pub open spec fn notify_payload(subscribe_type: SubscribeType, data: NotifyData) -> Seq<u8> {
    notify_head(subscribe_type, data) + notify_tail(data)
}

fn to_low32(n: usize) -> (r: u32)
    ensures
        r == low32(n as int),
{
    (n as u64 % 0x1_0000_0000) as u32
}

fn put_sizes(buf: &mut Vec<u8>, sizes: &Vec<i64>)
    ensures
        final(buf)@ == old(buf)@ + sizes_bytes(sizes@),
{
    let mut i: usize = 0;
    proof {
        assert(sizes@.take(0) =~= Seq::empty());
        assert(buf@ =~= old(buf)@ + sizes_bytes(sizes@.take(0)));
    }
    while i < sizes.len()
        invariant
            i <= sizes@.len(),
            buf@ == old(buf)@ + sizes_bytes(sizes@.take(i as int)),
        decreases sizes@.len() - i,
    {
        put_i64(buf, sizes[i]);
        proof {
            let t = sizes@.take(i + 1);
            assert(t.drop_last() =~= sizes@.take(i as int));
            assert(buf@ =~= old(buf)@ + sizes_bytes(t));
        }
        i = i + 1;
    }
    proof {
        assert(sizes@.take(i as int) =~= sizes@);
    }
}

fn count_extras(extras: &StringMap) -> (n: usize)
    ensures
        n == extras_kept(extras@),
        n <= extras@.len(),
{
    let ghost weights = extra_weights(extras@);
    let budget: usize = 8191;
    let mut used: usize = 0;
    let mut i: usize = 0;
    while i < extras.len()
        invariant
            i <= extras@.len(),
            used <= budget,
            budget == HEADERS_MAX_SIZE - 1,
            weights == extra_weights(extras@),
            extras_kept(extras@) == kept_from(weights, i as int, used as int, budget as int),
        decreases extras@.len() - i,
    {
        let k = extras.key_at(i).as_str().as_bytes().len();
        let v = extras.value_at(i).as_str().as_bytes().len();
        if k > budget - used || v > budget - used - k {
            return i;
        }
        used = used + k + v;
        i = i + 1;
    }
    i
}

fn put_extras(buf: &mut Vec<u8>, extras: &StringMap, n: usize)
    requires
        n <= extras@.len(),
    ensures
        final(buf)@ == old(buf)@ + extras_bytes(extras@.take(n as int)),
{
    let mut i: usize = 0;
    proof {
        assert(extras@.take(0) =~= Seq::empty());
        assert(buf@ =~= old(buf)@ + extras_bytes(extras@.take(0)));
    }
    while i < n
        invariant
            i <= n <= extras@.len(),
            buf@ == old(buf)@ + extras_bytes(extras@.take(i as int)),
        decreases n - i,
    {
        put_cstr(buf, extras.key_at(i).as_str());
        put_cstr(buf, extras.value_at(i).as_str());
        proof {
            let t = extras@.take(i + 1);
            assert(t.drop_last() =~= extras@.take(i as int));
            assert(t.last() == extras@[i as int]);
            assert(buf@ =~= old(buf)@ + extras_bytes(t));
        }
        i = i + 1;
    }
}

#[verifier::rlimit(50)]
fn put_statuses(buf: &mut Vec<u8>, statuses: &Vec<EachFileStatus>, version: Version)
    ensures
        final(buf)@ == old(buf)@ + statuses_bytes(statuses@, version),
{
    let mut i: usize = 0;
    proof {
        assert(statuses@.take(0) =~= Seq::empty());
        assert(buf@ =~= old(buf)@ + statuses_bytes(statuses@.take(0), version));
    }
    while i < statuses.len()
        invariant
            i <= statuses@.len(),
            buf@ == old(buf)@ + statuses_bytes(statuses@.take(i as int), version),
        decreases statuses@.len() - i,
    {
        let s = &statuses[i];
        let ghost entry = buf@;
        if version == Version::API9 {
            put_str(buf, s.path.as_str());
        }
        buf.push(0u8);
        put_u32(buf, s.reason.repr() as u32);
        put_cstr(buf, s.message.as_str());
        proof {
            let t = statuses@.take(i + 1);
            assert(t.drop_last() =~= statuses@.take(i as int));
            assert(t.last() == statuses@[i as int]);
            let path_part = if version == Version::API9 {
                encode_utf8(s.path@)
            } else {
                Seq::<u8>::empty()
            };
            assert(buf@ =~= entry + path_part.push(0u8) + le32(s.reason.spec_repr() as u32)
                + encode_utf8(s.message@).push(0u8));
            assert(buf@ =~= old(buf)@ + statuses_bytes(t, version));
        }
        i = i + 1;
    }
    proof {
        assert(statuses@.take(i as int) =~= statuses@);
    }
}

proof fn lemma_add_assoc(a: Seq<u8>, b: Seq<u8>, c: Seq<u8>)
    ensures
        (a + b) + c == a + (b + c),
{
    assert((a + b) + c =~= a + (b + c));
}

#[verifier::rlimit(50)]
fn put_notify_head(buf: &mut Vec<u8>, subscribe_type: SubscribeType, notify_data: &NotifyData)
    requires
        notify_data.progress.wf(),
        notify_data.progress@.index < notify_data.progress@.processed.len(),
    ensures
        final(buf)@ == old(buf)@ + notify_head(subscribe_type, *notify_data),
{
    let progress = &notify_data.progress;
    let index = progress.index();
    let ghost p = progress@;
    let ghost b0 = buf@;
    let ghost x1 = le32(subscribe_type.spec_repr());
    let ghost x2 = le32(notify_data.task_id);
    let ghost x3 = le32(p.state.spec_repr() as u32);
    let ghost x4 = le32(low32(p.index as int));
    let ghost x5 = le64(p.processed[p.index as int] as u64);
    let ghost x6 = le64(p.total_processed as u64);
    let ghost x7 = le32(low32(p.sizes.len() as int));
    let ghost x8 = sizes_bytes(p.sizes);
    put_u32(buf, subscribe_type.repr());
    put_u32(buf, notify_data.task_id);
    put_u32(buf, progress.state().repr() as u32);
    put_u32(buf, to_low32(index));
    put_u64(buf, progress.processed()[index] as u64);
    put_u64(buf, progress.total_processed() as u64);
    put_u32(buf, to_low32(progress.sizes().len()));
    put_sizes(buf, progress.sizes());
    proof {
        assert(buf@ == b0 + x1 + x2 + x3 + x4 + x5 + x6 + x7 + x8);
        lemma_add_assoc(b0, x1, x2);
        lemma_add_assoc(b0, x1 + x2, x3);
        lemma_add_assoc(b0, x1 + x2 + x3, x4);
        lemma_add_assoc(b0, x1 + x2 + x3 + x4, x5);
        lemma_add_assoc(b0, x1 + x2 + x3 + x4 + x5, x6);
        lemma_add_assoc(b0, x1 + x2 + x3 + x4 + x5 + x6, x7);
        lemma_add_assoc(b0, x1 + x2 + x3 + x4 + x5 + x6 + x7, x8);
        assert(notify_head(subscribe_type, *notify_data) == x1 + x2 + x3 + x4 + x5 + x6 + x7
            + x8);
    }
}

#[verifier::rlimit(50)]
fn put_notify_tail(buf: &mut Vec<u8>, notify_data: &NotifyData)
    ensures
        final(buf)@ == old(buf)@ + notify_tail(*notify_data),
{
    let progress = &notify_data.progress;
    let kept = count_extras(progress.extras());
    let ghost b0 = buf@;
    let ghost x1 = le32(low32(kept as int));
    let ghost x2 = extras_bytes(progress@.extras.take(kept as int));
    let ghost x3 = le32(notify_data.action.spec_repr() as u32);
    let ghost x4 = le32(notify_data.version.spec_repr() as u32);
    let ghost x5 = le32(low32(notify_data.each_file_status@.len() as int));
    let ghost x6 = statuses_bytes(notify_data.each_file_status@, notify_data.version);
    put_u32(buf, to_low32(kept));
    put_extras(buf, progress.extras(), kept);
    put_u32(buf, notify_data.action.repr() as u32);
    put_u32(buf, notify_data.version.repr() as u32);
    put_u32(buf, to_low32(notify_data.each_file_status.len()));
    put_statuses(buf, &notify_data.each_file_status, notify_data.version);
    proof {
        assert(buf@ == b0 + x1 + x2 + x3 + x4 + x5 + x6);
        lemma_add_assoc(b0, x1, x2);
        lemma_add_assoc(b0, x1 + x2, x3);
        lemma_add_assoc(b0, x1 + x2 + x3, x4);
        lemma_add_assoc(b0, x1 + x2 + x3 + x4, x5);
        lemma_add_assoc(b0, x1 + x2 + x3 + x4 + x5, x6);
        assert(notify_tail(*notify_data) == x1 + x2 + x3 + x4 + x5 + x6);
    }
}

impl Client {
    /// The sender for the process `pid`; its first message has id 1.
    pub fn new(pid: u64) -> (c: Client)
        ensures
            c == (Client { pid, message_id: 1 }),
    {
        Client { pid, message_id: 1 }
    }

    fn take_id(&mut self) -> (id: u32)
        ensures
            id == old(self).message_id,
            final(self).message_id == next_id(old(self).message_id),
            final(self).pid == old(self).pid,
    {
        let id = self.message_id;
        self.message_id = if id == u32::MAX {
            0
        } else {
            id + 1
        };
        id
    }

    /// The message that tells of a fault of task `tid`.
    pub fn handle_send_faults(&mut self, tid: u32, subscribe_type: SubscribeType, reason: Reason) -> (m:
        Vec<u8>)
        ensures
            m@ == frame(
                old(self).message_id,
                MessageType::Faults,
                faults_payload(tid, subscribe_type, reason),
            ),
            final(self).message_id == next_id(old(self).message_id),
            final(self).pid == old(self).pid,
    {
        let id = self.take_id();
        let mut payload: Vec<u8> = Vec::new();
        put_u32(&mut payload, tid);
        put_u32(&mut payload, subscribe_type.repr());
        put_u32(&mut payload, reason.repr() as u32);
        proof {
            assert(payload@ =~= faults_payload(tid, subscribe_type, reason));
        }
        build_frame(id, MessageType::Faults, length_of(&payload), &payload)
    }

    /// The message that tells why task `task_id` waits.
    pub fn handle_send_waiting_notify(&mut self, task_id: u32, waiting_reason: WaitingCause) -> (m:
        Vec<u8>)
        ensures
            m@ == frame(
                old(self).message_id,
                MessageType::Waiting,
                waiting_payload(task_id, waiting_reason),
            ),
            final(self).message_id == next_id(old(self).message_id),
            final(self).pid == old(self).pid,
    {
        let id = self.take_id();
        let mut payload: Vec<u8> = Vec::new();
        put_u32(&mut payload, task_id);
        put_u32(&mut payload, waiting_reason.repr());
        proof {
            assert(payload@ =~= waiting_payload(task_id, waiting_reason));
        }
        build_frame(id, MessageType::Waiting, length_of(&payload), &payload)
    }

    /// The message that tells of the response that task `tid` got.
    #[verifier::rlimit(50)]
    pub fn handle_send_response(
        &mut self,
        tid: u32,
        version: &str,
        status_code: u32,
        reason: &str,
        headers: &Vec<HeaderField>,
    ) -> (m: Vec<u8>)
        ensures
            m@ == response_message(
                old(self).message_id,
                response_payload(tid, version@, status_code, reason@, headers@),
            ),
            m@.len() <= HEADERS_MAX_SIZE || m@.len() == FRAME_LEN + response_payload(
                tid,
                version@,
                status_code,
                reason@,
                headers@,
            ).len(),
            final(self).message_id == next_id(old(self).message_id),
            final(self).pid == old(self).pid,
    {
        let id = self.take_id();
        let mut payload: Vec<u8> = Vec::new();
        put_u32(&mut payload, tid);
        put_cstr(&mut payload, version);
        put_u32(&mut payload, status_code);
        put_cstr(&mut payload, reason);
        put_fields(&mut payload, headers);
        proof {
            assert(payload@ =~= response_payload(tid, version@, status_code, reason@, headers@));
        }
        let size = length_of(&payload);
        if size > HEADERS_MAX_SIZE {
            let mut m = build_frame(id, MessageType::HttpResponse, HEADERS_MAX_SIZE, &payload);
            m.truncate(8192);
            m
        } else {
            build_frame(id, MessageType::HttpResponse, size, &payload)
        }
    }

    /// The message that carries an event of a task. The progress must
    /// name a file of the task as the current one.
    #[verifier::rlimit(50)]
    pub fn handle_send_notify_data(&mut self, subscribe_type: SubscribeType, notify_data: &NotifyData) -> (m:
        Vec<u8>)
        requires
            notify_data.progress.wf(),
            notify_data.progress@.index < notify_data.progress@.processed.len(),
        ensures
            m@ == frame(
                old(self).message_id,
                MessageType::NotifyData,
                notify_payload(subscribe_type, *notify_data),
            ),
            final(self).message_id == next_id(old(self).message_id),
            final(self).pid == old(self).pid,
    {
        let id = self.take_id();
        let mut payload: Vec<u8> = Vec::new();
        put_notify_head(&mut payload, subscribe_type, notify_data);
        put_notify_tail(&mut payload, notify_data);
        proof {
            assert(payload@ =~= notify_payload(subscribe_type, *notify_data));
        }
        build_frame(id, MessageType::NotifyData, length_of(&payload), &payload)
    }
}

/// Every message begins with the magic number and says its kind, and one
/// that is not cut says its own length as far as sixteen bits hold it.
pub proof fn lemma_frame_layout(id: u32, kind: MessageType, payload: Seq<u8>)
    ensures
        frame(id, kind, payload).len() == FRAME_LEN + payload.len(),
        frame(id, kind, payload).subrange(0, 4) == le32(REQUEST_MAGIC_NUM),
        frame(id, kind, payload).subrange(4, 8) == le32(id),
        frame(id, kind, payload).subrange(8, 10) == le16(kind.spec_repr()),
        frame(id, kind, payload).subrange(10, 12) == le16(frame_len(payload)),
        frame(id, kind, payload).subrange(12, FRAME_LEN + payload.len()) == payload,
{
    let m = frame(id, kind, payload);
    assert(m.subrange(0, 4) =~= le32(REQUEST_MAGIC_NUM));
    assert(m.subrange(4, 8) =~= le32(id));
    assert(m.subrange(8, 10) =~= le16(kind.spec_repr()));
    assert(m.subrange(10, 12) =~= le16(frame_len(payload)));
    assert(m.subrange(12, FRAME_LEN + payload.len()) =~= payload);
}

/// What a client answered to a message.
#[derive(Clone, Copy, PartialEq, Eq, Structural, Debug)]
pub enum Acknowledgement {
    /// The client answered with the length of the message.
    Done,
    /// The client answered with another length.
    BadLength,
    /// No answer came in time.
    TimedOut,
    /// The message could not be sent.
    NotSent,
}

/// How long the answer of a client is waited for, in milliseconds.
pub const ACKNOWLEDGE_TIMEOUT: u64 = 500;

/// Judges what came back after a message of `sent` bytes: whether the
/// message was sent, and the four bytes of the answer, if one came in
/// time. Whatever the judgement, the message is not sent again.
pub fn send_message(sent: usize, was_sent: bool, answer: Option<[u8; 4]>) -> (a: Acknowledgement)
    ensures
        a == (if !was_sent {
            Acknowledgement::NotSent
        } else {
            match answer {
                None => Acknowledgement::TimedOut,
                Some(b) => if crate::wire::from_le32(b@) == sent {
                    Acknowledgement::Done
                } else {
                    Acknowledgement::BadLength
                },
            }
        }),
{
    if !was_sent {
        return Acknowledgement::NotSent;
    }
    match answer {
        None => Acknowledgement::TimedOut,
        Some(b) => {
            let len: u64 = b[0] as u64 + b[1] as u64 * 0x100 + b[2] as u64 * 0x1_0000 + b[3] as u64
                * 0x100_0000;
            if len == sent as u64 {
                Acknowledgement::Done
            } else {
                Acknowledgement::BadLength
            }
        },
    }
}

/// What the bus is asked to do: for the processes and their
/// subscriptions, and to tell a process of a task.
pub enum ClientEvent {
    /// A process asks for a channel.
    OpenChannel(u64),
    /// A process subscribes to a task: the task, the process, its user and
    /// its token.
    Subscribe(u32, u64, u64, u64),
    /// The subscription to a task is to end.
    Unsubscribe(u32),
    /// A task is over.
    TaskFinished(u32),
    /// A process ended.
    Terminate(u64),
    /// A task got a response: the task, the version of the protocol, the
    /// status, the reason, and the header fields.
    SendResponse(u32, String, u32, String, Vec<HeaderField>),
    /// An event of a task.
    SendNotifyData(SubscribeType, NotifyData),
    /// A task met a fault.
    SendFaults(u32, SubscribeType, Reason),
    /// A task waits.
    SendWaitNotify(u32, WaitingCause),
    /// The channel is to be closed.
    Shutdown,
}

/// How many of the first `n` events stand before the first that closes
/// the channel.
pub open spec fn before_shutdown(events: Seq<ClientEvent>, n: int) -> int
    decreases n,
{
    if n <= 0 {
        0
    } else {
        let before = before_shutdown(events, n - 1);
        if before == n - 1 && !(events[n - 1] is Shutdown) {
            n
        } else {
            before
        }
    }
}

/// Once the channel is closed, no later event counts.
pub proof fn lemma_shutdown_stops(events: Seq<ClientEvent>, k: int, n: int)
    requires
        0 <= k < n,
        before_shutdown(events, k) == k,
        events[k] is Shutdown,
    ensures
        before_shutdown(events, n) == k,
    decreases n,
{
    if n > k + 1 {
        lemma_shutdown_stops(events, k, n - 1);
    }
}

/// How an event counts when the progress events of a batch are
/// coalesced: an event of a task counts with its kind and its task, and
/// every other event as one that is no progress event.
pub open spec fn key_of(e: ClientEvent) -> EventKey {
    match e {
        ClientEvent::SendNotifyData(kind, data) => EventKey { kind, task_id: data.task_id },
        _ => EventKey { kind: SubscribeType::Completed, task_id: 0 },
    }
}

/// How the first `n` events of a batch count.
pub open spec fn batch_keys(events: Seq<ClientEvent>, n: int) -> Seq<EventKey> {
    Seq::new(n as nat, |i: int| key_of(events[i]))
}

/// Whether an event of a task can be written down: its progress is in
/// order and names a file of the task as the current one.
pub open spec fn can_send(data: NotifyData) -> bool {
    data.progress.wf() && data.progress@.index < data.progress@.processed.len()
}

/// The message for an event under the id `id`: a response, a fault, the
/// cause of a wait, or an event of a task that can be written down. No
/// other event is told to the process.
pub open spec fn message_of(e: ClientEvent, id: u32) -> Option<Seq<u8>> {
    match e {
        ClientEvent::SendResponse(tid, version, status_code, reason, headers) => Some(
            response_message(id, response_payload(tid, version@, status_code, reason@, headers@)),
        ),
        ClientEvent::SendFaults(tid, subscribe_type, reason) => Some(
            frame(id, MessageType::Faults, faults_payload(tid, subscribe_type, reason)),
        ),
        ClientEvent::SendWaitNotify(task_id, cause) => Some(
            frame(id, MessageType::Waiting, waiting_payload(task_id, cause)),
        ),
        ClientEvent::SendNotifyData(subscribe_type, data) => if can_send(data) {
            Some(frame(id, MessageType::NotifyData, notify_payload(subscribe_type, data)))
        } else {
            None
        },
        _ => None,
    }
}

/// Messages in the order in which they are sent, and the id of the next.
pub struct Sent {
    pub messages: Seq<Seq<u8>>,
    pub next: u32,
}

/// The messages for the events at the first `k` of the positions `kept`,
/// in the order of these positions, the first under the id `id`.
pub open spec fn sent_in_order(events: Seq<ClientEvent>, kept: Seq<usize>, k: int, id: u32) -> Sent
    decreases k,
{
    if k <= 0 {
        Sent { messages: Seq::empty(), next: id }
    } else {
        let before = sent_in_order(events, kept, k - 1, id);
        match message_of(events[kept[k - 1] as int], before.next) {
            Some(m) => Sent { messages: before.messages.push(m), next: next_id(before.next) },
            None => before,
        }
    }
}

/// The positions of the events of a batch that are sent: those before the
/// first event that closes the channel, less the progress events that a
/// later progress event of the same task overtakes, in rising order.
pub open spec fn kept_positions(events: Seq<ClientEvent>) -> Seq<usize> {
    let stop = before_shutdown(events, events.len() as int);
    sent_positions(batch_keys(events, stop), stop)
}

/// What a process is sent for a batch of events, the first message under
/// the id `id`, and whether its channel is closed. The events are told in
/// the order of the batch, and the ids of the messages rise in that order;
/// left out are only the progress events that a later progress event of
/// the same task overtakes. An event that closes the channel ends the
/// batch.
pub open spec fn drained(events: Seq<ClientEvent>, id: u32) -> (Sent, bool) {
    let kept = kept_positions(events);
    (
        sent_in_order(events, kept, kept.len() as int, id),
        before_shutdown(events, events.len() as int) < events.len(),
    )
}

/// A process is told the events of a batch in their order, with only
/// overtaken progress events missing: the positions that are sent rise;
/// every event before the end of the batch that is no progress event is
/// sent; and a progress event is sent exactly if no later progress event
/// of its task stands in the batch.
pub proof fn lemma_batch_in_order(events: Seq<ClientEvent>)
    requires
        events.len() <= usize::MAX,
    ensures
        forall|a: int, b: int|
            0 <= a < b < kept_positions(events).len() ==> kept_positions(events)[a]
                < kept_positions(events)[b],
        forall|a: int|
            0 <= a < kept_positions(events).len() ==> (#[trigger] kept_positions(events)[a])
                < before_shutdown(events, events.len() as int),
        forall|i: int|
            0 <= i < before_shutdown(events, events.len() as int) ==> (kept_positions(
                events,
            ).contains(i as usize) <==> #[trigger] is_sent(
                batch_keys(events, before_shutdown(events, events.len() as int)),
                i,
            )),
        forall|i: int|
            0 <= i < before_shutdown(events, events.len() as int) && !(events[i]
                is SendNotifyData && events[i]->SendNotifyData_0 == SubscribeType::Progress)
                ==> #[trigger] kept_positions(events).contains(i as usize),
{
    lemma_before_shutdown_bound(events, events.len() as int);
    let stop = before_shutdown(events, events.len() as int);
    let keys = batch_keys(events, stop);
    lemma_coalesce(keys, stop);
    assert forall|i: int|
        0 <= i < stop && !(events[i] is SendNotifyData && events[i]->SendNotifyData_0
            == SubscribeType::Progress) implies #[trigger] kept_positions(events).contains(
        i as usize,
    ) by {
        assert(keys[i] == key_of(events[i]));
        assert(is_sent(keys, i));
    }
}

/// The batch ends within its events.
pub proof fn lemma_before_shutdown_bound(events: Seq<ClientEvent>, n: int)
    ensures
        0 <= before_shutdown(events, n) <= if n < 0 {
            0
        } else {
            n
        },
    decreases n,
{
    if n > 0 {
        lemma_before_shutdown_bound(events, n - 1);
    }
}

/// The bytes of each message.
pub open spec fn messages_view(v: Seq<Vec<u8>>) -> Seq<Seq<u8>> {
    Seq::new(v.len(), |i: int| v[i]@)
}

fn batch_end(batch: &Vec<ClientEvent>) -> (stop: usize)
    ensures
        stop == before_shutdown(batch@, batch@.len() as int),
        stop <= batch@.len(),
{
    let mut i: usize = 0;
    while i < batch.len()
        invariant
            i <= batch@.len(),
            before_shutdown(batch@, i as int) == i,
        decreases batch@.len() - i,
    {
        match &batch[i] {
            ClientEvent::Shutdown => {
                proof {
                    lemma_shutdown_stops(batch@, i as int, batch@.len() as int);
                }
                return i;
            },
            _ => {},
        }
        i = i + 1;
    }
    i
}

fn keys_of(batch: &Vec<ClientEvent>, stop: usize) -> (keys: Vec<EventKey>)
    requires
        stop <= batch@.len(),
    ensures
        keys@ == batch_keys(batch@, stop as int),
{
    let mut keys: Vec<EventKey> = Vec::new();
    let mut k: usize = 0;
    while k < stop
        invariant
            k <= stop <= batch@.len(),
            keys@.len() == k,
            forall|j: int| 0 <= j < k ==> keys@[j] == key_of(batch@[j]),
        decreases stop - k,
    {
        match &batch[k] {
            ClientEvent::SendNotifyData(kind, data) => {
                keys.push(EventKey { kind: *kind, task_id: data.task_id });
            },
            _ => {
                keys.push(EventKey { kind: SubscribeType::Completed, task_id: 0 });
            },
        }
        k = k + 1;
    }
    proof {
        assert(keys@ =~= batch_keys(batch@, stop as int));
    }
    keys
}

impl Client {
    /// Takes up a batch of events: returns the messages for the process in
    /// the order in which they are to be sent, which is the order of the
    /// batch, and whether the channel is to be closed behind them.
    #[verifier::rlimit(50)]
    pub fn run(&mut self, batch: &Vec<ClientEvent>) -> (r: (Vec<Vec<u8>>, bool))
        ensures
            messages_view(r.0@) == drained(batch@, old(self).message_id).0.messages,
            final(self).message_id == drained(batch@, old(self).message_id).0.next,
            r.1 == drained(batch@, old(self).message_id).1,
            final(self).pid == old(self).pid,
    {
        let stop = batch_end(batch);
        let keys = keys_of(batch, stop);
        let kept = coalesce_progress(&keys);
        proof {
            lemma_coalesce(keys@, keys@.len() as int);
        }
        let mut messages: Vec<Vec<u8>> = Vec::new();
        let mut k: usize = 0;
        proof {
            assert(messages_view(messages@) =~= Seq::<Seq<u8>>::empty());
        }
        while k < kept.len()
            invariant
                k <= kept@.len(),
                self.pid == old(self).pid,
                stop <= batch@.len(),
                kept@ == kept_positions(batch@),
                forall|j: int| 0 <= j < kept@.len() ==> (#[trigger] kept@[j]) < stop,
                messages_view(messages@) == sent_in_order(
                    batch@,
                    kept@,
                    k as int,
                    old(self).message_id,
                ).messages,
                self.message_id == sent_in_order(batch@, kept@, k as int, old(self).message_id).next,
            decreases kept@.len() - k,
        {
            let ghost sent_before = messages@;
            assert(kept@[k as int] < stop);
            let mut message: Option<Vec<u8>> = None;
            match &batch[kept[k]] {
                ClientEvent::SendResponse(tid, version, status_code, reason, headers) => {
                    message = Some(
                        self.handle_send_response(
                            *tid,
                            version.as_str(),
                            *status_code,
                            reason.as_str(),
                            headers,
                        ),
                    );
                },
                ClientEvent::SendFaults(tid, subscribe_type, reason) => {
                    message = Some(self.handle_send_faults(*tid, *subscribe_type, *reason));
                },
                ClientEvent::SendWaitNotify(task_id, cause) => {
                    message = Some(self.handle_send_waiting_notify(*task_id, *cause));
                },
                ClientEvent::SendNotifyData(subscribe_type, data) => {
                    if data.progress.is_consistent() && data.progress.index()
                        < data.progress.processed().len() {
                        message = Some(self.handle_send_notify_data(*subscribe_type, data));
                    }
                },
                _ => {},
            }
            match message {
                Some(m) => {
                    messages.push(m);
                    proof {
                        assert(messages_view(messages@) =~= messages_view(sent_before).push(m@));
                    }
                },
                None => {},
            }
            k = k + 1;
        }
        (messages, stop < batch.len())
    }
}

} // verus!
