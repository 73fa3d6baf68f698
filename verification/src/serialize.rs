//! How a configuration travels in a message.

use crate::config::{
    file_specs_view, form_items_view, i64_to_u64_wrapping, strings_view, u64_to_i64_wrapping,
    wrap_to_i64, wrap_to_u64, Action, CommonTaskConfig, FileSpec, FileSpecView, FormItem,
    FormItemView, MinSpeed, Mode, NetworkConfig, TaskConfig, TaskConfigView, Timeout, Version,
};
use crate::parcel::{IpcStatusCode, Item, MsgParcel};
use crate::strmap::{distinct_keys, put_all, StringMap};
use vstd::prelude::*;

verus! {

/// The bundle type of an atomic service, whose tasks carry the account.
pub const ATOMIC_SERVICE: u32 = 1;

/// The number of values at the head of an encoded configuration.
pub const HEAD_LEN: usize = 30;

/// Who sent a message, as the transport reports it.
pub struct Caller {
    pub uid: u64,
    pub token_id: u64,
    pub bundle: String,
    pub account: String,
}

pub struct CallerView {
    pub uid: u64,
    pub token_id: u64,
    pub bundle: Seq<char>,
    pub account: Seq<char>,
}

impl View for Caller {
    type V = CallerView;

    open spec fn view(&self) -> CallerView {
        CallerView {
            uid: self.uid,
            token_id: self.token_id,
            bundle: self.bundle@,
            account: self.account@,
        }
    }
}

/// `s` with the action, the version, the mode and the first switches of a
/// configuration behind it.
pub open spec fn append_flags(s: Seq<Item>, c: TaskConfigView) -> Seq<Item> {
    s.push(
        Item::U32(c.common_data.action.spec_repr() as u32),
    ).push(
        Item::U32(c.version.spec_repr() as u32),
    ).push(
        Item::U32(c.common_data.mode.spec_repr() as u32),
    ).push(
        Item::U32(c.bundle_type),
    ).push(
        Item::Bool(c.common_data.cover),
    ).push(
        Item::U32(c.common_data.network_config.spec_repr() as u32),
    ).push(
        Item::Bool(c.common_data.metered),
    ).push(
        Item::Bool(c.common_data.roaming),
    ).push(
        Item::Bool(c.common_data.retry),
    ).push(
        Item::Bool(c.common_data.redirect),
    )
}

/// `s` with the range, the priority and the limits of a configuration behind it.
pub open spec fn append_limits(s: Seq<Item>, c: TaskConfigView) -> Seq<Item> {
    s.push(
        Item::Bool(c.common_data.background),
    ).push(
        Item::Bool(c.common_data.multipart),
    ).push(
        Item::U32(c.common_data.index),
    ).push(
        Item::I64(wrap_to_i64(c.common_data.begins)),
    ).push(
        Item::I64(c.common_data.ends),
    ).push(
        Item::Bool(c.common_data.gauge),
    ).push(
        Item::Bool(c.common_data.precise),
    ).push(
        Item::U32(c.common_data.priority),
    ).push(
        Item::I64(c.common_data.min_speed.speed),
    ).push(
        Item::I64(c.common_data.min_speed.duration),
    ).push(
        Item::U64(c.common_data.timeout.connection_timeout),
    ).push(
        Item::U64(c.common_data.timeout.total_timeout),
    )
}

/// `s` with the strings of a configuration behind it.
pub open spec fn append_strings(s: Seq<Item>, c: TaskConfigView) -> Seq<Item> {
    s.push(
        Item::Text(c.url),
    ).push(
        Item::Text(c.title),
    ).push(
        Item::Text(c.method),
    ).push(
        Item::Text(c.token),
    ).push(
        Item::Text(c.description),
    ).push(
        Item::Text(c.data),
    ).push(
        Item::Text(c.proxy),
    ).push(
        Item::Text(c.certificate_pins),
    )
}

/// `s` with the head of a configuration behind it: its plain values and
/// strings.
pub open spec fn append_head(s: Seq<Item>, c: TaskConfigView) -> Seq<Item> {
    append_strings(append_limits(append_flags(s, c), c), c)
}

/// The head of an encoded configuration.
pub open spec fn encode_head(c: TaskConfigView) -> Seq<Item> {
    append_head(Seq::empty(), c)
}

/// A list of strings, one value each.
pub open spec fn encode_texts(v: Seq<Seq<char>>) -> Seq<Item> {
    Seq::new(v.len(), |i: int| Item::Text(v[i]))
}

/// A list of pairs of strings, two values each.
pub open spec fn encode_pairs(v: Seq<(Seq<char>, Seq<char>)>) -> Seq<Item> {
    Seq::new(
        2 * v.len(),
        |i: int|
            if i % 2 == 0 {
                Item::Text(v[i / 2].0)
            } else {
                Item::Text(v[i / 2].1)
            },
    )
}

/// The form items as pairs of name and value.
pub open spec fn form_pairs(v: Seq<FormItemView>) -> Seq<(Seq<char>, Seq<char>)> {
    Seq::new(v.len(), |i: int| (v[i].name, v[i].value))
}

/// One file: four strings and a flag, and for a user file its descriptor.
pub open spec fn encode_file(f: FileSpecView) -> Seq<Item> {
    let fixed = seq![
        Item::Text(f.name),
        Item::Text(f.path),
        Item::Text(f.file_name),
        Item::Text(f.mime_type),
        Item::Bool(f.is_user_file),
    ];
    if f.is_user_file {
        fixed.push(Item::Fd(f.fd.unwrap()))
    } else {
        fixed
    }
}

/// The files, one after the other.
pub open spec fn encode_files(v: Seq<FileSpecView>) -> Seq<Item>
    decreases v.len(),
{
    if v.len() == 0 {
        Seq::empty()
    } else {
        encode_files(v.drop_last()) + encode_file(v.last())
    }
}

/// `s` with a configuration behind it: the head, then each list behind its
/// count.
pub open spec fn append_config(s: Seq<Item>, c: TaskConfigView) -> Seq<Item> {
    let s1 = append_head(s, c);
    let s2 = s1.push(Item::U32(c.certs_path.len() as u32)) + encode_texts(c.certs_path);
    let s3 = s2.push(Item::U32(c.form_items.len() as u32)) + encode_pairs(
        form_pairs(c.form_items),
    );
    let s4 = s3.push(Item::U32(c.file_specs.len() as u32)) + encode_files(c.file_specs);
    let s5 = s4.push(Item::U32(c.body_file_paths.len() as u32)) + encode_texts(
        c.body_file_paths,
    );
    let s6 = s5.push(Item::U32(c.headers.len() as u32)) + encode_pairs(c.headers);
    s6.push(Item::U32(c.extras.len() as u32)) + encode_pairs(c.extras)
}

/// A configuration as the values of a message.
pub open spec fn encode_config(c: TaskConfigView) -> Seq<Item> {
    append_config(Seq::empty(), c)
}

/// What a configuration must meet to be written: every count fits the
/// 32 bits it is written in, and every user file has its descriptor.
pub open spec fn encodable(c: TaskConfigView) -> bool {
    &&& c.certs_path.len() <= u32::MAX
    &&& c.form_items.len() <= u32::MAX
    &&& c.file_specs.len() <= u32::MAX
    &&& c.body_file_paths.len() <= u32::MAX
    &&& c.headers.len() <= u32::MAX
    &&& c.extras.len() <= u32::MAX
    &&& forall|i: int|
        0 <= i < c.file_specs.len() ==> ((#[trigger] c.file_specs[i]).is_user_file
            ==> c.file_specs[i].fd.is_some())
}

pub proof fn lemma_encode_files_push(v: Seq<FileSpecView>, f: FileSpecView)
    ensures
        encode_files(v.push(f)) == encode_files(v) + encode_file(f),
{
    assert(v.push(f).drop_last() =~= v);
}

fn write_texts(parcel: &mut MsgParcel, v: &Vec<String>)
    requires
        old(parcel).wf(),
    ensures
        final(parcel).wf(),
        final(parcel).position() == old(parcel).position(),
        final(parcel).contents() == old(parcel).contents() + encode_texts(strings_view(v@)),
{
    let ghost before = parcel.contents();
    let mut i: usize = 0;
    proof {
        assert(before =~= before + encode_texts(strings_view(v@)).take(0));
    }
    while i < v.len()
        invariant
            i <= v@.len(),
            parcel.wf(),
            parcel.position() == old(parcel).position(),
            parcel.contents() == before + encode_texts(strings_view(v@)).take(i as int),
        decreases v@.len() - i,
    {
        parcel.write_text(&v[i]);
        proof {
            let e = encode_texts(strings_view(v@));
            assert(e.take(i + 1) =~= e.take(i as int).push(Item::Text(v@[i as int]@)));
            assert(before + e.take(i + 1) =~= (before + e.take(i as int)).push(
                Item::Text(v@[i as int]@),
            ));
        }
        i = i + 1;
    }
    proof {
        let e = encode_texts(strings_view(v@));
        assert(e.take(i as int) =~= e);
    }
}

fn write_pairs(parcel: &mut MsgParcel, m: &StringMap)
    requires
        old(parcel).wf(),
    ensures
        final(parcel).wf(),
        final(parcel).position() == old(parcel).position(),
        final(parcel).contents() == old(parcel).contents() + encode_pairs(m@),
{
    let ghost before = parcel.contents();
    let ghost e = encode_pairs(m@);
    let mut i: usize = 0;
    proof {
        assert(before =~= before + e.take(0));
    }
    while i < m.len()
        invariant
            i <= m@.len(),
            parcel.wf(),
            e == encode_pairs(m@),
            parcel.position() == old(parcel).position(),
            parcel.contents() == before + e.take(2 * i),
        decreases m@.len() - i,
    {
        parcel.write_text(m.key_at(i));
        parcel.write_text(m.value_at(i));
        proof {
            assert(e.take(2 * i + 2) =~= e.take(2 * i).push(Item::Text(m@[i as int].0)).push(
                Item::Text(m@[i as int].1),
            ));
            assert(before + e.take(2 * i + 2) =~= (before + e.take(2 * i)).push(
                Item::Text(m@[i as int].0),
            ).push(Item::Text(m@[i as int].1)));
        }
        i = i + 1;
    }
    proof {
        assert(e.take(2 * i) =~= e);
    }
}

fn write_form_items(parcel: &mut MsgParcel, v: &Vec<FormItem>)
    requires
        old(parcel).wf(),
    ensures
        final(parcel).wf(),
        final(parcel).position() == old(parcel).position(),
        final(parcel).contents() == old(parcel).contents() + encode_pairs(
            form_pairs(form_items_view(v@)),
        ),
{
    let ghost before = parcel.contents();
    let ghost pairs = form_pairs(form_items_view(v@));
    let ghost e = encode_pairs(pairs);
    let mut i: usize = 0;
    proof {
        assert(before =~= before + e.take(0));
    }
    while i < v.len()
        invariant
            i <= v@.len(),
            parcel.wf(),
            pairs == form_pairs(form_items_view(v@)),
            e == encode_pairs(pairs),
            parcel.position() == old(parcel).position(),
            parcel.contents() == before + e.take(2 * i),
        decreases v@.len() - i,
    {
        parcel.write_text(&v[i].name);
        parcel.write_text(&v[i].value);
        proof {
            assert(pairs[i as int] == (v@[i as int].name@, v@[i as int].value@));
            assert(e.take(2 * i + 2) =~= e.take(2 * i).push(Item::Text(pairs[i as int].0)).push(
                Item::Text(pairs[i as int].1),
            ));
            assert(before + e.take(2 * i + 2) =~= (before + e.take(2 * i)).push(
                Item::Text(pairs[i as int].0),
            ).push(Item::Text(pairs[i as int].1)));
        }
        i = i + 1;
    }
    proof {
        assert(e.take(2 * i) =~= e);
    }
}

#[verifier::rlimit(50)]
fn write_files(parcel: &mut MsgParcel, v: &Vec<FileSpec>) -> (r: Result<(), IpcStatusCode>)
    requires
        old(parcel).wf(),
    ensures
        final(parcel).wf(),
        final(parcel).position() == old(parcel).position(),
        r.is_ok() == (forall|i: int|
            0 <= i < v@.len() ==> ((#[trigger] v@[i]).is_user_file ==> v@[i].fd.is_some())),
        r.is_ok() ==> final(parcel).contents() == old(parcel).contents() + encode_files(
            file_specs_view(v@),
        ),
{
    let ghost before = parcel.contents();
    let ghost fv = file_specs_view(v@);
    let mut i: usize = 0;
    proof {
        assert(fv.take(0) =~= Seq::empty());
        assert(before =~= before + encode_files(fv.take(0)));
    }
    while i < v.len()
        invariant
            i <= v@.len(),
            parcel.wf(),
            fv == file_specs_view(v@),
            parcel.position() == old(parcel).position(),
            parcel.contents() == before + encode_files(fv.take(i as int)),
            forall|j: int| 0 <= j < i ==> ((#[trigger] v@[j]).is_user_file ==> v@[j].fd.is_some()),
        decreases v@.len() - i,
    {
        let f = &v[i];
        let ghost at_entry = parcel.contents();
        parcel.write_text(&f.name);
        parcel.write_text(&f.path);
        parcel.write_text(&f.file_name);
        parcel.write_text(&f.mime_type);
        parcel.write_bool(f.is_user_file);
        if f.is_user_file {
            match f.fd {
                Some(fd) => {
                    parcel.write_fd(fd);
                },
                None => {
                    return Err(IpcStatusCode::Failed);
                },
            }
        }
        proof {
            assert(fv[i as int] == f@);
            assert(fv.take(i + 1) =~= fv.take(i as int).push(f@));
            lemma_encode_files_push(fv.take(i as int), f@);
            assert(parcel.contents() =~= at_entry + encode_file(f@));
            assert(parcel.contents() =~= before + encode_files(fv.take(i + 1)));
        }
        i = i + 1;
    }
    proof {
        assert(fv.take(i as int) =~= fv);
    }
    Ok(())
}

#[verifier::rlimit(50)]
fn write_flags(config: &TaskConfig, parcel: &mut MsgParcel)
    requires
        old(parcel).wf(),
    ensures
        final(parcel).wf(),
        final(parcel).position() == old(parcel).position(),
        final(parcel).contents() == append_flags(old(parcel).contents(), config@),
{
    parcel.write_u32(config.common_data.action.repr() as u32);
    parcel.write_u32(config.version.repr() as u32);
    parcel.write_u32(config.common_data.mode.repr() as u32);
    parcel.write_u32(config.bundle_type);
    parcel.write_bool(config.common_data.cover);
    parcel.write_u32(config.common_data.network_config.repr() as u32);
    parcel.write_bool(config.common_data.metered);
    parcel.write_bool(config.common_data.roaming);
    parcel.write_bool(config.common_data.retry);
    parcel.write_bool(config.common_data.redirect);
}

#[verifier::rlimit(50)]
fn write_limits(config: &TaskConfig, parcel: &mut MsgParcel)
    requires
        old(parcel).wf(),
    ensures
        final(parcel).wf(),
        final(parcel).position() == old(parcel).position(),
        final(parcel).contents() == append_limits(old(parcel).contents(), config@),
{
    parcel.write_bool(config.common_data.background);
    parcel.write_bool(config.common_data.multipart);
    parcel.write_u32(config.common_data.index);
    parcel.write_i64(u64_to_i64_wrapping(config.common_data.begins));
    parcel.write_i64(config.common_data.ends);
    parcel.write_bool(config.common_data.gauge);
    parcel.write_bool(config.common_data.precise);
    parcel.write_u32(config.common_data.priority);
    parcel.write_i64(config.common_data.min_speed.speed);
    parcel.write_i64(config.common_data.min_speed.duration);
    parcel.write_u64(config.common_data.timeout.connection_timeout);
    parcel.write_u64(config.common_data.timeout.total_timeout);
}

#[verifier::rlimit(50)]
fn write_strings(config: &TaskConfig, parcel: &mut MsgParcel)
    requires
        old(parcel).wf(),
    ensures
        final(parcel).wf(),
        final(parcel).position() == old(parcel).position(),
        final(parcel).contents() == append_strings(old(parcel).contents(), config@),
{
    parcel.write_text(&config.url);
    parcel.write_text(&config.title);
    parcel.write_text(&config.method);
    parcel.write_text(&config.token);
    parcel.write_text(&config.description);
    parcel.write_text(&config.data);
    parcel.write_text(&config.proxy);
    parcel.write_text(&config.certificate_pins);
}

fn write_head(config: &TaskConfig, parcel: &mut MsgParcel)
    requires
        old(parcel).wf(),
    ensures
        final(parcel).wf(),
        final(parcel).position() == old(parcel).position(),
        final(parcel).contents() == append_head(old(parcel).contents(), config@),
{
    write_flags(config, parcel);
    write_limits(config, parcel);
    write_strings(config, parcel);
}

/// Writes `config` behind what `parcel` holds. Fails, having written a part
/// or nothing, where a count does not fit or a user file has no descriptor.
#[verifier::rlimit(50)]
pub fn serialize(config: &TaskConfig, parcel: &mut MsgParcel) -> (r: Result<(), IpcStatusCode>)
    requires
        old(parcel).wf(),
    ensures
        final(parcel).wf(),
        final(parcel).position() == old(parcel).position(),
        r.is_ok() == encodable(config@),
        r.is_ok() ==> final(parcel).contents() == append_config(
            old(parcel).contents(),
            config@,
        ),
{
    let ghost before = parcel.contents();
    let ghost c = config@;
    let limit: usize = 0xffff_ffff;
    if config.certs_path.len() > limit || config.form_items.len() > limit
        || config.file_specs.len() > limit || config.body_file_paths.len() > limit
        || config.headers.len() > limit || config.extras.len() > limit {
        return Err(IpcStatusCode::Failed);
    }
    write_head(config, parcel);
    parcel.write_u32(config.certs_path.len() as u32);
    write_texts(parcel, &config.certs_path);
    parcel.write_u32(config.form_items.len() as u32);
    write_form_items(parcel, &config.form_items);
    parcel.write_u32(config.file_specs.len() as u32);
    match write_files(parcel, &config.file_specs) {
        Ok(()) => {},
        Err(e) => {
            proof {
                let j = choose|j: int|
                    0 <= j < config.file_specs@.len() && !((
                    #[trigger] config.file_specs@[j]).is_user_file
                        ==> config.file_specs@[j].fd.is_some());
                assert(c.file_specs[j] == config.file_specs@[j]@);
            }
            return Err(e);
        },
    }
    parcel.write_u32(config.body_file_paths.len() as u32);
    write_texts(parcel, &config.body_file_paths);
    parcel.write_u32(config.headers.len() as u32);
    write_pairs(parcel, &config.headers);
    parcel.write_u32(config.extras.len() as u32);
    write_pairs(parcel, &config.extras);
    proof {
        assert forall|i: int|
            0 <= i < c.file_specs.len() && (#[trigger] c.file_specs[i]).is_user_file implies c.file_specs[i].fd.is_some() by {
            assert(c.file_specs[i] == config.file_specs@[i]@);
        }
    }
    Ok(())
}


/// The values at the head of an encoded configuration, as they are read.
pub struct Head {
    pub action: u32,
    pub version: u32,
    pub mode: u32,
    pub bundle_type: u32,
    pub cover: bool,
    pub network: u32,
    pub metered: bool,
    pub roaming: bool,
    pub retry: bool,
    pub redirect: bool,
    pub background: bool,
    pub multipart: bool,
    pub index: u32,
    pub begins: i64,
    pub ends: i64,
    pub gauge: bool,
    pub precise: bool,
    pub priority: u32,
    pub min_speed: i64,
    pub min_duration: i64,
    pub connection_timeout: u64,
    pub total_timeout: u64,
    pub url: String,
    pub title: String,
    pub method: String,
    pub token: String,
    pub description: String,
    pub data: String,
    pub proxy: String,
    pub certificate_pins: String,
}

pub struct HeadView {
    pub action: u32,
    pub version: u32,
    pub mode: u32,
    pub bundle_type: u32,
    pub cover: bool,
    pub network: u32,
    pub metered: bool,
    pub roaming: bool,
    pub retry: bool,
    pub redirect: bool,
    pub background: bool,
    pub multipart: bool,
    pub index: u32,
    pub begins: i64,
    pub ends: i64,
    pub gauge: bool,
    pub precise: bool,
    pub priority: u32,
    pub min_speed: i64,
    pub min_duration: i64,
    pub connection_timeout: u64,
    pub total_timeout: u64,
    pub url: Seq<char>,
    pub title: Seq<char>,
    pub method: Seq<char>,
    pub token: Seq<char>,
    pub description: Seq<char>,
    pub data: Seq<char>,
    pub proxy: Seq<char>,
    pub certificate_pins: Seq<char>,
}

impl View for Head {
    type V = HeadView;

    open spec fn view(&self) -> HeadView {
        HeadView {
            action: self.action,
            version: self.version,
            mode: self.mode,
            bundle_type: self.bundle_type,
            cover: self.cover,
            network: self.network,
            metered: self.metered,
            roaming: self.roaming,
            retry: self.retry,
            redirect: self.redirect,
            background: self.background,
            multipart: self.multipart,
            index: self.index,
            begins: self.begins,
            ends: self.ends,
            gauge: self.gauge,
            precise: self.precise,
            priority: self.priority,
            min_speed: self.min_speed,
            min_duration: self.min_duration,
            connection_timeout: self.connection_timeout,
            total_timeout: self.total_timeout,
            url: self.url@,
            title: self.title@,
            method: self.method@,
            token: self.token@,
            description: self.description@,
            data: self.data@,
            proxy: self.proxy@,
            certificate_pins: self.certificate_pins@,
        }
    }
}

/// Whether the thirty values from `pos` on have the types of a head.
pub open spec fn head_ok(s: Seq<Item>, pos: int) -> bool {
    &&& 0 <= pos
    &&& pos + 30 <= s.len()
    &&& s[pos + 0] is U32
    &&& s[pos + 1] is U32
    &&& s[pos + 2] is U32
    &&& s[pos + 3] is U32
    &&& s[pos + 4] is Bool
    &&& s[pos + 5] is U32
    &&& s[pos + 6] is Bool
    &&& s[pos + 7] is Bool
    &&& s[pos + 8] is Bool
    &&& s[pos + 9] is Bool
    &&& s[pos + 10] is Bool
    &&& s[pos + 11] is Bool
    &&& s[pos + 12] is U32
    &&& s[pos + 13] is I64
    &&& s[pos + 14] is I64
    &&& s[pos + 15] is Bool
    &&& s[pos + 16] is Bool
    &&& s[pos + 17] is U32
    &&& s[pos + 18] is I64
    &&& s[pos + 19] is I64
    &&& s[pos + 20] is U64
    &&& s[pos + 21] is U64
    &&& s[pos + 22] is Text
    &&& s[pos + 23] is Text
    &&& s[pos + 24] is Text
    &&& s[pos + 25] is Text
    &&& s[pos + 26] is Text
    &&& s[pos + 27] is Text
    &&& s[pos + 28] is Text
    &&& s[pos + 29] is Text
}

/// The head that the values from `pos` on hold.
pub open spec fn head_at(s: Seq<Item>, pos: int) -> Option<HeadView> {
    if head_ok(s, pos) {
        Some(
            HeadView {
                action: s[pos + 0]->U32_0,
                version: s[pos + 1]->U32_0,
                mode: s[pos + 2]->U32_0,
                bundle_type: s[pos + 3]->U32_0,
                cover: s[pos + 4]->Bool_0,
                network: s[pos + 5]->U32_0,
                metered: s[pos + 6]->Bool_0,
                roaming: s[pos + 7]->Bool_0,
                retry: s[pos + 8]->Bool_0,
                redirect: s[pos + 9]->Bool_0,
                background: s[pos + 10]->Bool_0,
                multipart: s[pos + 11]->Bool_0,
                index: s[pos + 12]->U32_0,
                begins: s[pos + 13]->I64_0,
                ends: s[pos + 14]->I64_0,
                gauge: s[pos + 15]->Bool_0,
                precise: s[pos + 16]->Bool_0,
                priority: s[pos + 17]->U32_0,
                min_speed: s[pos + 18]->I64_0,
                min_duration: s[pos + 19]->I64_0,
                connection_timeout: s[pos + 20]->U64_0,
                total_timeout: s[pos + 21]->U64_0,
                url: s[pos + 22]->Text_0,
                title: s[pos + 23]->Text_0,
                method: s[pos + 24]->Text_0,
                token: s[pos + 25]->Text_0,
                description: s[pos + 26]->Text_0,
                data: s[pos + 27]->Text_0,
                proxy: s[pos + 28]->Text_0,
                certificate_pins: s[pos + 29]->Text_0,
            },
        )
    } else {
        None
    }
}

#[verifier::rlimit(50)]
fn read_head(parcel: &mut MsgParcel) -> (r: Result<Head, IpcStatusCode>)
    requires
        old(parcel).wf(),
    ensures
        final(parcel).wf(),
        final(parcel).contents() == old(parcel).contents(),
        r.is_ok() == head_at(old(parcel).contents(), old(parcel).position()).is_some(),
        r.is_ok() ==> r.unwrap()@ == head_at(
            old(parcel).contents(),
            old(parcel).position(),
        ).unwrap() && final(parcel).position() == old(parcel).position() + 30,
{
    proof {
        parcel.lemma_position_in_range();
    }
    let action = parcel.read_u32()?;
    let version = parcel.read_u32()?;
    let mode = parcel.read_u32()?;
    let bundle_type = parcel.read_u32()?;
    let cover = parcel.read_bool()?;
    let network = parcel.read_u32()?;
    let metered = parcel.read_bool()?;
    let roaming = parcel.read_bool()?;
    let retry = parcel.read_bool()?;
    let redirect = parcel.read_bool()?;
    let background = parcel.read_bool()?;
    let multipart = parcel.read_bool()?;
    let index = parcel.read_u32()?;
    let begins = parcel.read_i64()?;
    let ends = parcel.read_i64()?;
    let gauge = parcel.read_bool()?;
    let precise = parcel.read_bool()?;
    let priority = parcel.read_u32()?;
    let min_speed = parcel.read_i64()?;
    let min_duration = parcel.read_i64()?;
    let connection_timeout = parcel.read_u64()?;
    let total_timeout = parcel.read_u64()?;
    let url = parcel.read_text()?;
    let title = parcel.read_text()?;
    let method = parcel.read_text()?;
    let token = parcel.read_text()?;
    let description = parcel.read_text()?;
    let data = parcel.read_text()?;
    let proxy = parcel.read_text()?;
    let certificate_pins = parcel.read_text()?;
    proof {
        parcel.lemma_position_in_range();
    }
    Ok(
        Head {
            action,
            version,
            mode,
            bundle_type,
            cover,
            network,
            metered,
            roaming,
            retry,
            redirect,
            background,
            multipart,
            index,
            begins,
            ends,
            gauge,
            precise,
            priority,
            min_speed,
            min_duration,
            connection_timeout,
            total_timeout,
            url,
            title,
            method,
            token,
            description,
            data,
            proxy,
            certificate_pins,
        },
    )
}


/// The `n` strings that the values from `pos` on hold.
pub open spec fn decode_texts(s: Seq<Item>, pos: int, n: int) -> Option<Seq<Seq<char>>> {
    if 0 <= pos && 0 <= n && pos + n <= s.len() && (forall|i: int|
        0 <= i < n ==> (#[trigger] s[pos + i]) is Text) {
        Some(Seq::new(n as nat, |i: int| s[pos + i]->Text_0))
    } else {
        None
    }
}

/// The count that the value at `pos` holds.
pub open spec fn count_at(s: Seq<Item>, pos: int) -> Option<int> {
    if 0 <= pos < s.len() && s[pos] is U32 {
        Some(s[pos]->U32_0 as int)
    } else {
        None
    }
}

/// A list behind its count: `per` strings for each counted element. The
/// result holds the strings and the position behind them.
pub open spec fn decode_counted_texts(s: Seq<Item>, pos: int, per: int) -> Option<
    (Seq<Seq<char>>, int),
> {
    match count_at(s, pos) {
        None => None,
        Some(n) => match decode_texts(s, pos + 1, n * per) {
            None => None,
            Some(t) => Some((t, pos + 1 + n * per)),
        },
    }
}

/// Strings taken two by two.
pub open spec fn pair_up(t: Seq<Seq<char>>) -> Seq<(Seq<char>, Seq<char>)> {
    Seq::new((t.len() / 2) as nat, |i: int| (t[2 * i], t[2 * i + 1]))
}

/// Pairs of name and value as form items.
pub open spec fn forms_of(pairs: Seq<(Seq<char>, Seq<char>)>) -> Seq<FormItemView> {
    Seq::new(pairs.len(), |i: int| FormItemView { name: pairs[i].0, value: pairs[i].1 })
}

/// The file that the values from `pos` on hold, and the position behind it.
/// A user file carries a descriptor, which must not be negative.
pub open spec fn decode_file(s: Seq<Item>, pos: int) -> Option<(FileSpecView, int)> {
    if 0 <= pos && pos + 5 <= s.len() && s[pos] is Text && s[pos + 1] is Text && s[pos
        + 2] is Text && s[pos + 3] is Text && s[pos + 4] is Bool {
        if s[pos + 4]->Bool_0 {
            if pos + 6 <= s.len() && s[pos + 5] is Fd && s[pos + 5]->Fd_0 >= 0 {
                Some(
                    (
                        FileSpecView {
                            name: s[pos]->Text_0,
                            path: s[pos + 1]->Text_0,
                            file_name: s[pos + 2]->Text_0,
                            mime_type: s[pos + 3]->Text_0,
                            is_user_file: true,
                            fd: Some(s[pos + 5]->Fd_0),
                        },
                        pos + 6,
                    ),
                )
            } else {
                None
            }
        } else {
            Some(
                (
                    FileSpecView {
                        name: s[pos]->Text_0,
                        path: s[pos + 1]->Text_0,
                        file_name: s[pos + 2]->Text_0,
                        mime_type: s[pos + 3]->Text_0,
                        is_user_file: false,
                        fd: None,
                    },
                    pos + 5,
                ),
            )
        }
    } else {
        None
    }
}

/// `front` before the files of `rest`.
pub open spec fn prepend_files(
    front: Seq<FileSpecView>,
    rest: Option<(Seq<FileSpecView>, int)>,
) -> Option<(Seq<FileSpecView>, int)> {
    match rest {
        None => None,
        Some((v, p)) => Some((front + v, p)),
    }
}

/// The `n` files that the values from `pos` on hold, and the position behind
/// them.
pub open spec fn decode_files(s: Seq<Item>, pos: int, n: int) -> Option<
    (Seq<FileSpecView>, int),
>
    decreases n,
{
    if n <= 0 {
        Some((Seq::empty(), pos))
    } else {
        match decode_file(s, pos) {
            None => None,
            Some((f, p)) => prepend_files(seq![f], decode_files(s, p, n - 1)),
        }
    }
}

/// Files behind their count.
pub open spec fn decode_counted_files(s: Seq<Item>, pos: int) -> Option<
    (Seq<FileSpecView>, int),
> {
    match count_at(s, pos) {
        None => None,
        Some(n) => decode_files(s, pos + 1, n),
    }
}

/// Each file takes five values at least.
pub proof fn lemma_decode_files_length(s: Seq<Item>, pos: int, n: int)
    requires
        0 <= n,
        decode_files(s, pos, n).is_some(),
    ensures
        decode_files(s, pos, n).unwrap().0.len() == n,
        n > 0 ==> pos + 5 * n <= decode_files(s, pos, n).unwrap().1 <= s.len(),
        n == 0 ==> decode_files(s, pos, n).unwrap().1 == pos,
    decreases n,
{
    if n > 0 {
        let (f, p) = decode_file(s, pos).unwrap();
        lemma_decode_files_length(s, p, n - 1);
    }
}

/// The configuration that a head stands for, with empty lists, as sent by
/// `caller`: the caller's identity is taken from the transport, never from
/// the message, and the task has no id yet.
pub open spec fn config_of_head(h: HeadView, caller: CallerView) -> TaskConfigView {
    TaskConfigView {
        bundle: caller.bundle,
        bundle_type: h.bundle_type,
        atomic_account: if h.bundle_type == ATOMIC_SERVICE {
            caller.account
        } else {
            Seq::empty()
        },
        url: h.url,
        title: h.title,
        description: h.description,
        method: h.method,
        headers: Seq::empty(),
        data: h.data,
        token: h.token,
        proxy: h.proxy,
        certificate_pins: h.certificate_pins,
        extras: Seq::empty(),
        version: Version::spec_from_u8((h.version % 256) as u8),
        form_items: Seq::empty(),
        file_specs: Seq::empty(),
        body_file_paths: Seq::empty(),
        certs_path: Seq::empty(),
        common_data: CommonTaskConfig {
            task_id: 0,
            uid: caller.uid,
            token_id: caller.token_id,
            action: Action::spec_from_u8((h.action % 256) as u8),
            mode: Mode::spec_from_u8((h.mode % 256) as u8),
            cover: h.cover,
            network_config: NetworkConfig::spec_from_u8((h.network % 256) as u8),
            metered: h.metered,
            roaming: h.roaming,
            retry: h.retry,
            redirect: h.redirect,
            index: h.index,
            begins: wrap_to_u64(h.begins),
            ends: h.ends,
            gauge: h.gauge,
            precise: h.precise,
            priority: h.priority,
            background: h.background,
            multipart: h.multipart,
            min_speed: MinSpeed { speed: h.min_speed, duration: h.min_duration },
            timeout: Timeout {
                connection_timeout: h.connection_timeout,
                total_timeout: h.total_timeout,
            },
        },
    }
}

/// The configuration that the values from `pos` on hold when `caller` sent
/// them, and the position behind it; `None` where they hold none. Of a key
/// that occurs twice among the headers or the extras the last value counts.
pub open spec fn decode_config(s: Seq<Item>, pos: int, caller: CallerView) -> Option<
    (TaskConfigView, int),
> {
    match head_at(s, pos) {
        None => None,
        Some(h) => match decode_counted_texts(s, pos + 30, 1) {
            None => None,
            Some((certs, after_certs)) => match decode_counted_texts(s, after_certs, 2) {
                None => None,
                Some((forms, after_forms)) => match decode_counted_files(s, after_forms) {
                    None => None,
                    Some((files, after_files)) => match decode_counted_texts(s, after_files, 1) {
                        None => None,
                        Some((bodies, after_bodies)) => match decode_counted_texts(s, after_bodies, 2) {
                            None => None,
                            Some((headers, after_headers)) => match decode_counted_texts(s, after_headers, 2) {
                                None => None,
                                Some((extras, after_extras)) => Some(
                                    (
                                        TaskConfigView {
                                            certs_path: certs,
                                            form_items: forms_of(pair_up(forms)),
                                            file_specs: files,
                                            body_file_paths: bodies,
                                            headers: put_all(Seq::empty(), pair_up(headers)),
                                            extras: put_all(Seq::empty(), pair_up(extras)),
                                            ..config_of_head(h, caller)
                                        },
                                        after_extras,
                                    ),
                                ),
                            },
                        },
                    },
                },
            },
        },
    }
}

#[verifier::rlimit(50)]
fn read_counted_texts(parcel: &mut MsgParcel, per: u64) -> (r: Result<Vec<String>, IpcStatusCode>)
    requires
        old(parcel).wf(),
        per == 1 || per == 2,
    ensures
        final(parcel).wf(),
        final(parcel).contents() == old(parcel).contents(),
        r.is_ok() == decode_counted_texts(
            old(parcel).contents(),
            old(parcel).position(),
            per as int,
        ).is_some(),
        r.is_ok() ==> strings_view(r.unwrap()@) == decode_counted_texts(
            old(parcel).contents(),
            old(parcel).position(),
            per as int,
        ).unwrap().0 && final(parcel).position() == decode_counted_texts(
            old(parcel).contents(),
            old(parcel).position(),
            per as int,
        ).unwrap().1,
{
    let ghost s = parcel.contents();
    let ghost pos = parcel.position();
    proof {
        parcel.lemma_position_in_range();
    }
    let count = parcel.read_u32()?;
    let n: u64 = if per == 1 {
        count as u64
    } else {
        count as u64 * 2
    };
    assert(n == count * per);
    if count as u64 > parcel.readable() as u64 {
        return Err(IpcStatusCode::Failed);
    }
    let mut v: Vec<String> = Vec::new();
    let mut i: u64 = 0;
    while i < n
        invariant
            i <= n,
            parcel.wf(),
            parcel.contents() == s,
            parcel.position() == pos + 1 + i,
            s == old(parcel).contents(),
            pos == old(parcel).position(),
            0 <= pos,
            per == 1 || per == 2,
            count_at(s, pos) == Some(count as int),
            n == count * per,
            v@.len() == i,
            forall|j: int| 0 <= j < i ==> (#[trigger] s[pos + 1 + j]) is Text,
            forall|j: int| 0 <= j < i ==> (#[trigger] v@[j])@ == s[pos + 1 + j]->Text_0,
        decreases n - i,
    {
        proof {
            parcel.lemma_position_in_range();
        }
        match parcel.read_text() {
            Ok(t) => {
                v.push(t);
            },
            Err(e) => {
                proof {
                    if pos + 1 + n <= s.len() {
                        assert(!(s[pos + 1 + i] is Text));
                    }
                }
                return Err(e);
            },
        }
        i = i + 1;
    }
    proof {
        parcel.lemma_position_in_range();
        assert(strings_view(v@) =~= decode_texts(s, pos + 1, n as int).unwrap());
    }
    Ok(v)
}

fn to_form_items(texts: &Vec<String>) -> (r: Vec<FormItem>)
    ensures
        form_items_view(r@) == forms_of(pair_up(strings_view(texts@))),
{
    let n = texts.len() / 2;
    let mut r: Vec<FormItem> = Vec::new();
    let mut i: usize = 0;
    while i < n
        invariant
            i <= n,
            n == texts@.len() / 2,
            texts@.len() <= usize::MAX,
            r@.len() == i,
            forall|j: int|
                0 <= j < i ==> (#[trigger] r@[j])@ == (FormItemView {
                    name: texts@[2 * j]@,
                    value: texts@[2 * j + 1]@,
                }),
        decreases n - i,
    {
        r.push(FormItem { name: texts[2 * i].clone(), value: texts[2 * i + 1].clone() });
        i = i + 1;
    }
    proof {
        assert(form_items_view(r@) =~= forms_of(pair_up(strings_view(texts@))));
    }
    r
}

fn to_map(texts: &Vec<String>) -> (r: StringMap)
    ensures
        r@ == put_all(Seq::empty(), pair_up(strings_view(texts@))),
{
    let n = texts.len() / 2;
    let mut r = StringMap::new();
    let mut i: usize = 0;
    let ghost pairs = pair_up(strings_view(texts@));
    proof {
        assert(pairs.take(0) =~= Seq::empty());
    }
    while i < n
        invariant
            i <= n,
            n == texts@.len() / 2,
            texts@.len() <= usize::MAX,
            pairs == pair_up(strings_view(texts@)),
            r@ == put_all(Seq::empty(), pairs.take(i as int)),
        decreases n - i,
    {
        proof {
            assert(pairs.take(i + 1).drop_last() =~= pairs.take(i as int));
            assert(pairs.take(i + 1).last() == (texts@[2 * i]@, texts@[2 * i + 1]@));
        }
        r.insert(texts[2 * i].clone(), texts[2 * i + 1].clone());
        i = i + 1;
    }
    proof {
        assert(pairs.take(i as int) =~= pairs);
    }
    r
}

fn read_file(parcel: &mut MsgParcel) -> (r: Result<FileSpec, IpcStatusCode>)
    requires
        old(parcel).wf(),
    ensures
        final(parcel).wf(),
        final(parcel).contents() == old(parcel).contents(),
        r.is_ok() == decode_file(old(parcel).contents(), old(parcel).position()).is_some(),
        r.is_ok() ==> r.unwrap()@ == decode_file(
            old(parcel).contents(),
            old(parcel).position(),
        ).unwrap().0 && final(parcel).position() == decode_file(
            old(parcel).contents(),
            old(parcel).position(),
        ).unwrap().1,
{
    proof {
        parcel.lemma_position_in_range();
    }
    let name = parcel.read_text()?;
    let path = parcel.read_text()?;
    let file_name = parcel.read_text()?;
    let mime_type = parcel.read_text()?;
    let is_user_file = parcel.read_bool()?;
    let mut fd: Option<i32> = None;
    if is_user_file {
        let raw_fd = parcel.read_fd()?;
        if raw_fd < 0 {
            return Err(IpcStatusCode::Failed);
        }
        fd = Some(raw_fd);
    }
    proof {
        parcel.lemma_position_in_range();
    }
    Ok(FileSpec { name, path, file_name, mime_type, is_user_file, fd })
}

#[verifier::rlimit(50)]
fn read_counted_files(parcel: &mut MsgParcel) -> (r: Result<Vec<FileSpec>, IpcStatusCode>)
    requires
        old(parcel).wf(),
    ensures
        final(parcel).wf(),
        final(parcel).contents() == old(parcel).contents(),
        r.is_ok() == decode_counted_files(
            old(parcel).contents(),
            old(parcel).position(),
        ).is_some(),
        r.is_ok() ==> file_specs_view(r.unwrap()@) == decode_counted_files(
            old(parcel).contents(),
            old(parcel).position(),
        ).unwrap().0 && final(parcel).position() == decode_counted_files(
            old(parcel).contents(),
            old(parcel).position(),
        ).unwrap().1,
{
    let ghost s = parcel.contents();
    let ghost pos = parcel.position();
    proof {
        parcel.lemma_position_in_range();
    }
    let count = parcel.read_u32()?;
    if count as u64 > parcel.readable() as u64 {
        proof {
            if decode_files(s, pos + 1, count as int).is_some() {
                lemma_decode_files_length(s, pos + 1, count as int);
            }
        }
        return Err(IpcStatusCode::Failed);
    }
    let mut v: Vec<FileSpec> = Vec::new();
    let mut i: u32 = 0;
    proof {
        assert(file_specs_view(v@) =~= Seq::empty());
        let d = decode_files(s, pos + 1, count as int);
        if d.is_some() {
            assert(Seq::<FileSpecView>::empty() + d.unwrap().0 =~= d.unwrap().0);
        }
    }
    while i < count
        invariant
            i <= count,
            parcel.wf(),
            parcel.contents() == s,
            s == old(parcel).contents(),
            pos == old(parcel).position(),
            count_at(s, pos) == Some(count as int),
            v@.len() == i,
            decode_files(s, pos + 1, count as int) == prepend_files(
                file_specs_view(v@),
                decode_files(s, parcel.position(), count - i),
            ),
        decreases count - i,
    {
        let ghost cur = parcel.position();
        let ghost acc = file_specs_view(v@);
        match read_file(parcel) {
            Ok(f) => {
                v.push(f);
                proof {
                    let next = decode_files(s, parcel.position(), count - i - 1);
                    assert(file_specs_view(v@) =~= acc.push(f@));
                    if next.is_some() {
                        assert(acc + (seq![f@] + next.unwrap().0) =~= acc.push(f@)
                            + next.unwrap().0);
                    }
                }
            },
            Err(e) => {
                return Err(e);
            },
        }
        i = i + 1;
    }
    proof {
        assert(file_specs_view(v@) + Seq::<FileSpecView>::empty() =~= file_specs_view(v@));
    }
    Ok(v)
}

fn low_byte(value: u32) -> (b: u8)
    ensures
        b == (value % 256) as u8,
{
    (value % 256) as u8
}

/// Reads a configuration that `caller` sent. On success the values of the
/// configuration are read and no more; on failure the message stays as it
/// is.
pub fn deserialize(parcel: &mut MsgParcel, caller: &Caller) -> (r: Result<
    TaskConfig,
    IpcStatusCode,
>)
    requires
        old(parcel).wf(),
    ensures
        final(parcel).wf(),
        final(parcel).contents() == old(parcel).contents(),
        r.is_ok() == decode_config(
            old(parcel).contents(),
            old(parcel).position(),
            caller@,
        ).is_some(),
        r.is_ok() ==> r.unwrap()@ == decode_config(
            old(parcel).contents(),
            old(parcel).position(),
            caller@,
        ).unwrap().0 && final(parcel).position() == decode_config(
            old(parcel).contents(),
            old(parcel).position(),
            caller@,
        ).unwrap().1,
        r.is_err() ==> final(parcel).position() == old(parcel).position(),
{
    proof {
        parcel.lemma_position_in_range();
    }
    let start = parcel.get_read_position();
    match read_config(parcel, caller) {
        Ok(config) => Ok(config),
        Err(e) => {
            let _ = parcel.rewind_read(start);
            Err(e)
        },
    }
}

#[verifier::rlimit(50)]
fn read_config(parcel: &mut MsgParcel, caller: &Caller) -> (r: Result<TaskConfig, IpcStatusCode>)
    requires
        old(parcel).wf(),
    ensures
        final(parcel).wf(),
        final(parcel).contents() == old(parcel).contents(),
        r.is_ok() == decode_config(
            old(parcel).contents(),
            old(parcel).position(),
            caller@,
        ).is_some(),
        r.is_ok() ==> r.unwrap()@ == decode_config(
            old(parcel).contents(),
            old(parcel).position(),
            caller@,
        ).unwrap().0 && final(parcel).position() == decode_config(
            old(parcel).contents(),
            old(parcel).position(),
            caller@,
        ).unwrap().1,
{
    let head = match read_head(parcel) {
        Ok(h) => h,
        Err(e) => {
            return Err(e);
        },
    };
    let certs_path = match read_counted_texts(parcel, 1) {
        Ok(v) => v,
        Err(e) => {
            return Err(e);
        },
    };
    let forms = match read_counted_texts(parcel, 2) {
        Ok(v) => v,
        Err(e) => {
            return Err(e);
        },
    };
    let file_specs = match read_counted_files(parcel) {
        Ok(v) => v,
        Err(e) => {
            return Err(e);
        },
    };
    let body_file_paths = match read_counted_texts(parcel, 1) {
        Ok(v) => v,
        Err(e) => {
            return Err(e);
        },
    };
    let headers = match read_counted_texts(parcel, 2) {
        Ok(v) => v,
        Err(e) => {
            return Err(e);
        },
    };
    let extras = match read_counted_texts(parcel, 2) {
        Ok(v) => v,
        Err(e) => {
            return Err(e);
        },
    };
    let atomic_account = if head.bundle_type == ATOMIC_SERVICE {
        caller.account.clone()
    } else {
        String::new()
    };
    Ok(
        TaskConfig {
            bundle: caller.bundle.clone(),
            bundle_type: head.bundle_type,
            atomic_account,
            url: head.url,
            title: head.title,
            description: head.description,
            method: head.method,
            headers: to_map(&headers),
            data: head.data,
            token: head.token,
            proxy: head.proxy,
            certificate_pins: head.certificate_pins,
            extras: to_map(&extras),
            version: Version::from_u8(low_byte(head.version)),
            form_items: to_form_items(&forms),
            file_specs,
            body_file_paths,
            certs_path,
            common_data: CommonTaskConfig {
                task_id: 0,
                uid: caller.uid,
                token_id: caller.token_id,
                action: Action::from_u8(low_byte(head.action)),
                mode: Mode::from_u8(low_byte(head.mode)),
                cover: head.cover,
                network_config: NetworkConfig::from_u8(low_byte(head.network)),
                metered: head.metered,
                roaming: head.roaming,
                retry: head.retry,
                redirect: head.redirect,
                index: head.index,
                begins: i64_to_u64_wrapping(head.begins),
                ends: head.ends,
                gauge: head.gauge,
                precise: head.precise,
                priority: head.priority,
                background: head.background,
                multipart: head.multipart,
                min_speed: MinSpeed { speed: head.min_speed, duration: head.min_duration },
                timeout: Timeout {
                    connection_timeout: head.connection_timeout,
                    total_timeout: head.total_timeout,
                },
            },
        },
    )
}


/// The head that a configuration is written with.
pub open spec fn head_of(c: TaskConfigView) -> HeadView {
    HeadView {
        action: c.common_data.action.spec_repr() as u32,
        version: c.version.spec_repr() as u32,
        mode: c.common_data.mode.spec_repr() as u32,
        bundle_type: c.bundle_type,
        cover: c.common_data.cover,
        network: c.common_data.network_config.spec_repr() as u32,
        metered: c.common_data.metered,
        roaming: c.common_data.roaming,
        retry: c.common_data.retry,
        redirect: c.common_data.redirect,
        background: c.common_data.background,
        multipart: c.common_data.multipart,
        index: c.common_data.index,
        begins: wrap_to_i64(c.common_data.begins),
        ends: c.common_data.ends,
        gauge: c.common_data.gauge,
        precise: c.common_data.precise,
        priority: c.common_data.priority,
        min_speed: c.common_data.min_speed.speed,
        min_duration: c.common_data.min_speed.duration,
        connection_timeout: c.common_data.timeout.connection_timeout,
        total_timeout: c.common_data.timeout.total_timeout,
        url: c.url,
        title: c.title,
        method: c.method,
        token: c.token,
        description: c.description,
        data: c.data,
        proxy: c.proxy,
        certificate_pins: c.certificate_pins,
    }
}

/// `piece` stands in `s` from position `p` on.
pub open spec fn holds_at(s: Seq<Item>, p: int, piece: Seq<Item>) -> bool {
    &&& 0 <= p
    &&& p + piece.len() <= s.len()
    &&& forall|i: int| 0 <= i < piece.len() ==> (#[trigger] s[p + i]) == piece[i]
}

proof fn lemma_flags_index_keep(before: Seq<Item>, c: TaskConfigView, i: int)
    requires
        0 <= i < before.len(),
    ensures
        append_flags(before, c)[i] == before[i],
{
}

#[verifier::rlimit(100)]
#[verifier::spinoff_prover]
proof fn lemma_flags_index(before: Seq<Item>, c: TaskConfigView)
    ensures
        append_flags(before, c).len() == before.len() + 10,
        append_flags(before, c)[before.len() as int + 0] == Item::U32(c.common_data.action.spec_repr() as u32),
        append_flags(before, c)[before.len() as int + 1] == Item::U32(c.version.spec_repr() as u32),
        append_flags(before, c)[before.len() as int + 2] == Item::U32(c.common_data.mode.spec_repr() as u32),
        append_flags(before, c)[before.len() as int + 3] == Item::U32(c.bundle_type),
        append_flags(before, c)[before.len() as int + 4] == Item::Bool(c.common_data.cover),
        append_flags(before, c)[before.len() as int + 5] == Item::U32(c.common_data.network_config.spec_repr() as u32),
        append_flags(before, c)[before.len() as int + 6] == Item::Bool(c.common_data.metered),
        append_flags(before, c)[before.len() as int + 7] == Item::Bool(c.common_data.roaming),
        append_flags(before, c)[before.len() as int + 8] == Item::Bool(c.common_data.retry),
        append_flags(before, c)[before.len() as int + 9] == Item::Bool(c.common_data.redirect),
{
}

proof fn lemma_limits_index_keep(before: Seq<Item>, c: TaskConfigView, i: int)
    requires
        0 <= i < before.len(),
    ensures
        append_limits(before, c)[i] == before[i],
{
}

#[verifier::rlimit(100)]
#[verifier::spinoff_prover]
proof fn lemma_limits_index(before: Seq<Item>, c: TaskConfigView)
    ensures
        append_limits(before, c).len() == before.len() + 12,
        append_limits(before, c)[before.len() as int + 0] == Item::Bool(c.common_data.background),
        append_limits(before, c)[before.len() as int + 1] == Item::Bool(c.common_data.multipart),
        append_limits(before, c)[before.len() as int + 2] == Item::U32(c.common_data.index),
        append_limits(before, c)[before.len() as int + 3] == Item::I64(wrap_to_i64(c.common_data.begins)),
        append_limits(before, c)[before.len() as int + 4] == Item::I64(c.common_data.ends),
        append_limits(before, c)[before.len() as int + 5] == Item::Bool(c.common_data.gauge),
        append_limits(before, c)[before.len() as int + 6] == Item::Bool(c.common_data.precise),
        append_limits(before, c)[before.len() as int + 7] == Item::U32(c.common_data.priority),
        append_limits(before, c)[before.len() as int + 8] == Item::I64(c.common_data.min_speed.speed),
        append_limits(before, c)[before.len() as int + 9] == Item::I64(c.common_data.min_speed.duration),
        append_limits(before, c)[before.len() as int + 10] == Item::U64(c.common_data.timeout.connection_timeout),
        append_limits(before, c)[before.len() as int + 11] == Item::U64(c.common_data.timeout.total_timeout),
{
}

proof fn lemma_strings_index_keep(before: Seq<Item>, c: TaskConfigView, i: int)
    requires
        0 <= i < before.len(),
    ensures
        append_strings(before, c)[i] == before[i],
{
}

#[verifier::rlimit(100)]
#[verifier::spinoff_prover]
proof fn lemma_strings_index(before: Seq<Item>, c: TaskConfigView)
    ensures
        append_strings(before, c).len() == before.len() + 8,
        append_strings(before, c)[before.len() as int + 0] == Item::Text(c.url),
        append_strings(before, c)[before.len() as int + 1] == Item::Text(c.title),
        append_strings(before, c)[before.len() as int + 2] == Item::Text(c.method),
        append_strings(before, c)[before.len() as int + 3] == Item::Text(c.token),
        append_strings(before, c)[before.len() as int + 4] == Item::Text(c.description),
        append_strings(before, c)[before.len() as int + 5] == Item::Text(c.data),
        append_strings(before, c)[before.len() as int + 6] == Item::Text(c.proxy),
        append_strings(before, c)[before.len() as int + 7] == Item::Text(c.certificate_pins),
{
}

#[verifier::rlimit(50)]
proof fn lemma_append_head_index(before: Seq<Item>, c: TaskConfigView)
    ensures
        append_head(before, c).len() == before.len() + 30,
        forall|i: int| 0 <= i < before.len() ==> (#[trigger] append_head(before, c)[i]) == before[i],
        append_head(before, c)[before.len() as int + 0] == Item::U32(c.common_data.action.spec_repr() as u32),
        append_head(before, c)[before.len() as int + 1] == Item::U32(c.version.spec_repr() as u32),
        append_head(before, c)[before.len() as int + 2] == Item::U32(c.common_data.mode.spec_repr() as u32),
        append_head(before, c)[before.len() as int + 3] == Item::U32(c.bundle_type),
        append_head(before, c)[before.len() as int + 4] == Item::Bool(c.common_data.cover),
        append_head(before, c)[before.len() as int + 5] == Item::U32(c.common_data.network_config.spec_repr() as u32),
        append_head(before, c)[before.len() as int + 6] == Item::Bool(c.common_data.metered),
        append_head(before, c)[before.len() as int + 7] == Item::Bool(c.common_data.roaming),
        append_head(before, c)[before.len() as int + 8] == Item::Bool(c.common_data.retry),
        append_head(before, c)[before.len() as int + 9] == Item::Bool(c.common_data.redirect),
        append_head(before, c)[before.len() as int + 10] == Item::Bool(c.common_data.background),
        append_head(before, c)[before.len() as int + 11] == Item::Bool(c.common_data.multipart),
        append_head(before, c)[before.len() as int + 12] == Item::U32(c.common_data.index),
        append_head(before, c)[before.len() as int + 13] == Item::I64(wrap_to_i64(c.common_data.begins)),
        append_head(before, c)[before.len() as int + 14] == Item::I64(c.common_data.ends),
        append_head(before, c)[before.len() as int + 15] == Item::Bool(c.common_data.gauge),
        append_head(before, c)[before.len() as int + 16] == Item::Bool(c.common_data.precise),
        append_head(before, c)[before.len() as int + 17] == Item::U32(c.common_data.priority),
        append_head(before, c)[before.len() as int + 18] == Item::I64(c.common_data.min_speed.speed),
        append_head(before, c)[before.len() as int + 19] == Item::I64(c.common_data.min_speed.duration),
        append_head(before, c)[before.len() as int + 20] == Item::U64(c.common_data.timeout.connection_timeout),
        append_head(before, c)[before.len() as int + 21] == Item::U64(c.common_data.timeout.total_timeout),
        append_head(before, c)[before.len() as int + 22] == Item::Text(c.url),
        append_head(before, c)[before.len() as int + 23] == Item::Text(c.title),
        append_head(before, c)[before.len() as int + 24] == Item::Text(c.method),
        append_head(before, c)[before.len() as int + 25] == Item::Text(c.token),
        append_head(before, c)[before.len() as int + 26] == Item::Text(c.description),
        append_head(before, c)[before.len() as int + 27] == Item::Text(c.data),
        append_head(before, c)[before.len() as int + 28] == Item::Text(c.proxy),
        append_head(before, c)[before.len() as int + 29] == Item::Text(c.certificate_pins),
{
    let a = append_flags(before, c);
    let b = append_limits(a, c);
    let h = append_strings(b, c);
    lemma_flags_index(before, c);
    lemma_limits_index(a, c);
    lemma_strings_index(b, c);
    let p = before.len() as int;
    lemma_strings_index_keep(b, c, p + 0);
    lemma_limits_index_keep(a, c, p + 0);
    lemma_strings_index_keep(b, c, p + 1);
    lemma_limits_index_keep(a, c, p + 1);
    lemma_strings_index_keep(b, c, p + 2);
    lemma_limits_index_keep(a, c, p + 2);
    lemma_strings_index_keep(b, c, p + 3);
    lemma_limits_index_keep(a, c, p + 3);
    lemma_strings_index_keep(b, c, p + 4);
    lemma_limits_index_keep(a, c, p + 4);
    lemma_strings_index_keep(b, c, p + 5);
    lemma_limits_index_keep(a, c, p + 5);
    lemma_strings_index_keep(b, c, p + 6);
    lemma_limits_index_keep(a, c, p + 6);
    lemma_strings_index_keep(b, c, p + 7);
    lemma_limits_index_keep(a, c, p + 7);
    lemma_strings_index_keep(b, c, p + 8);
    lemma_limits_index_keep(a, c, p + 8);
    lemma_strings_index_keep(b, c, p + 9);
    lemma_limits_index_keep(a, c, p + 9);
    lemma_strings_index_keep(b, c, p + 10);
    lemma_strings_index_keep(b, c, p + 11);
    lemma_strings_index_keep(b, c, p + 12);
    lemma_strings_index_keep(b, c, p + 13);
    lemma_strings_index_keep(b, c, p + 14);
    lemma_strings_index_keep(b, c, p + 15);
    lemma_strings_index_keep(b, c, p + 16);
    lemma_strings_index_keep(b, c, p + 17);
    lemma_strings_index_keep(b, c, p + 18);
    lemma_strings_index_keep(b, c, p + 19);
    lemma_strings_index_keep(b, c, p + 20);
    lemma_strings_index_keep(b, c, p + 21);
    assert(h[p + 22] == h[b.len() as int + 0]);
    assert(h[p + 23] == h[b.len() as int + 1]);
    assert(h[p + 24] == h[b.len() as int + 2]);
    assert(h[p + 25] == h[b.len() as int + 3]);
    assert(h[p + 26] == h[b.len() as int + 4]);
    assert(h[p + 27] == h[b.len() as int + 5]);
    assert(h[p + 28] == h[b.len() as int + 6]);
    assert(h[p + 29] == h[b.len() as int + 7]);
    assert forall|i: int| 0 <= i < before.len() implies (#[trigger] h[i]) == before[i] by {
        lemma_flags_index_keep(before, c, i);
        lemma_limits_index_keep(a, c, i);
        lemma_strings_index_keep(b, c, i);
    }
}

#[verifier::rlimit(50)]
proof fn lemma_head_round_trip(s: Seq<Item>, before: Seq<Item>, c: TaskConfigView)
    requires
        holds_at(s, 0, append_head(before, c)),
    ensures
        head_at(s, before.len() as int) == Some(head_of(c)),
{
    lemma_append_head_index(before, c);
    let h = append_head(before, c);
    let p = before.len() as int;
    assert(s[0 + (p + 0)] == h[p + 0]);
    assert(s[0 + (p + 1)] == h[p + 1]);
    assert(s[0 + (p + 2)] == h[p + 2]);
    assert(s[0 + (p + 3)] == h[p + 3]);
    assert(s[0 + (p + 4)] == h[p + 4]);
    assert(s[0 + (p + 5)] == h[p + 5]);
    assert(s[0 + (p + 6)] == h[p + 6]);
    assert(s[0 + (p + 7)] == h[p + 7]);
    assert(s[0 + (p + 8)] == h[p + 8]);
    assert(s[0 + (p + 9)] == h[p + 9]);
    assert(s[0 + (p + 10)] == h[p + 10]);
    assert(s[0 + (p + 11)] == h[p + 11]);
    assert(s[0 + (p + 12)] == h[p + 12]);
    assert(s[0 + (p + 13)] == h[p + 13]);
    assert(s[0 + (p + 14)] == h[p + 14]);
    assert(s[0 + (p + 15)] == h[p + 15]);
    assert(s[0 + (p + 16)] == h[p + 16]);
    assert(s[0 + (p + 17)] == h[p + 17]);
    assert(s[0 + (p + 18)] == h[p + 18]);
    assert(s[0 + (p + 19)] == h[p + 19]);
    assert(s[0 + (p + 20)] == h[p + 20]);
    assert(s[0 + (p + 21)] == h[p + 21]);
    assert(s[0 + (p + 22)] == h[p + 22]);
    assert(s[0 + (p + 23)] == h[p + 23]);
    assert(s[0 + (p + 24)] == h[p + 24]);
    assert(s[0 + (p + 25)] == h[p + 25]);
    assert(s[0 + (p + 26)] == h[p + 26]);
    assert(s[0 + (p + 27)] == h[p + 27]);
    assert(s[0 + (p + 28)] == h[p + 28]);
    assert(s[0 + (p + 29)] == h[p + 29]);
}


proof fn lemma_texts_round_trip(s: Seq<Item>, p: int, v: Seq<Seq<char>>)
    requires
        0 <= p < s.len(),
        v.len() <= u32::MAX,
        s[p] == Item::U32(v.len() as u32),
        holds_at(s, p + 1, encode_texts(v)),
    ensures
        decode_counted_texts(s, p, 1) == Some((v, p + 1 + v.len())),
{
    let e = encode_texts(v);
    assert forall|i: int| 0 <= i < v.len() implies (#[trigger] s[p + 1 + i]) is Text by {
        assert(s[p + 1 + i] == e[i]);
    }
    let t = decode_texts(s, p + 1, v.len() as int).unwrap();
    assert forall|i: int| 0 <= i < v.len() implies t[i] == v[i] by {
        assert(s[p + 1 + i] == e[i]);
    }
    assert(t =~= v);
}

#[verifier::rlimit(50)]
proof fn lemma_pairs_round_trip(s: Seq<Item>, p: int, pairs: Seq<(Seq<char>, Seq<char>)>)
    requires
        0 <= p < s.len(),
        pairs.len() <= u32::MAX,
        s[p] == Item::U32(pairs.len() as u32),
        holds_at(s, p + 1, encode_pairs(pairs)),
    ensures
        decode_counted_texts(s, p, 2).is_some(),
        pair_up(decode_counted_texts(s, p, 2).unwrap().0) == pairs,
        decode_counted_texts(s, p, 2).unwrap().1 == p + 1 + 2 * pairs.len(),
{
    let e = encode_pairs(pairs);
    let n = 2 * pairs.len() as int;
    assert forall|i: int| 0 <= i < n implies (#[trigger] s[p + 1 + i]) is Text by {
        assert(s[p + 1 + i] == e[i]);
    }
    let t = decode_texts(s, p + 1, n).unwrap();
    assert forall|i: int| 0 <= i < pairs.len() implies pair_up(t)[i] == pairs[i] by {
        assert(s[p + 1 + 2 * i] == e[2 * i]);
        assert(s[p + 1 + (2 * i + 1)] == e[2 * i + 1]);
        assert((2 * i) % 2 == 0 && (2 * i) / 2 == i);
        assert((2 * i + 1) % 2 == 1 && (2 * i + 1) / 2 == i);
    }
    assert(pair_up(t) =~= pairs);
}

/// A file as it is read back: a user file has a descriptor that is not
/// negative, any other has none.
pub open spec fn readable_file(f: FileSpecView) -> bool {
    if f.is_user_file {
        f.fd.is_some() && f.fd.unwrap() >= 0
    } else {
        f.fd.is_none()
    }
}

proof fn lemma_decode_files_extend(s: Seq<Item>, p: int, n: int)
    requires
        0 <= n,
        decode_files(s, p, n).is_some(),
        decode_file(s, decode_files(s, p, n).unwrap().1).is_some(),
    ensures
        decode_files(s, p, n + 1) == Some(
            (
                decode_files(s, p, n).unwrap().0.push(
                    decode_file(s, decode_files(s, p, n).unwrap().1).unwrap().0,
                ),
                decode_file(s, decode_files(s, p, n).unwrap().1).unwrap().1,
            ),
        ),
    decreases n,
{
    if n == 0 {
        let (f, q) = decode_file(s, p).unwrap();
        assert(decode_files(s, q, 0) == Some((Seq::<FileSpecView>::empty(), q)));
        assert(seq![f] + Seq::<FileSpecView>::empty() =~= Seq::<FileSpecView>::empty().push(f));
    } else {
        let (f, q) = decode_file(s, p).unwrap();
        lemma_decode_files_extend(s, q, n - 1);
        let rest = decode_files(s, q, n - 1).unwrap();
        let last = decode_file(s, rest.1).unwrap();
        assert(seq![f] + rest.0.push(last.0) =~= (seq![f] + rest.0).push(last.0));
    }
}

proof fn lemma_file_round_trip(s: Seq<Item>, p: int, f: FileSpecView)
    requires
        readable_file(f),
        holds_at(s, p, encode_file(f)),
    ensures
        decode_file(s, p) == Some((f, p + encode_file(f).len())),
{
    let e = encode_file(f);
    assert(s[p + 0] == e[0]);
    assert(s[p + 1] == e[1]);
    assert(s[p + 2] == e[2]);
    assert(s[p + 3] == e[3]);
    assert(s[p + 4] == e[4]);
    if f.is_user_file {
        assert(s[p + 5] == e[5]);
    }
}

#[verifier::rlimit(50)]
proof fn lemma_files_round_trip(s: Seq<Item>, p: int, v: Seq<FileSpecView>)
    requires
        forall|i: int| 0 <= i < v.len() ==> readable_file(#[trigger] v[i]),
        holds_at(s, p, encode_files(v)),
    ensures
        decode_files(s, p, v.len() as int) == Some((v, p + encode_files(v).len())),
    decreases v.len(),
{
    if v.len() == 0 {
        assert(v =~= Seq::empty());
    } else {
        let init = v.drop_last();
        let e0 = encode_files(init);
        let e1 = encode_file(v.last());
        assert forall|i: int| 0 <= i < e0.len() implies (#[trigger] s[p + i]) == e0[i] by {
            assert(encode_files(v)[i] == e0[i]);
        }
        assert forall|i: int| 0 <= i < init.len() implies readable_file(
            #[trigger] init[i],
        ) by {
            assert(init[i] == v[i]);
        }
        lemma_files_round_trip(s, p, init);
        let q = p + e0.len();
        assert forall|i: int| 0 <= i < e1.len() implies (#[trigger] s[q + i]) == e1[i] by {
            assert(s[p + (e0.len() + i)] == encode_files(v)[e0.len() + i]);
        }
        assert(readable_file(v[v.len() - 1]));
        lemma_file_round_trip(s, q, v.last());
        lemma_decode_files_extend(s, p, init.len() as int);
        assert(init.push(v.last()) =~= v);
    }
}

/// What follows from a sequence that begins with `a`, then `x`, then `t`.
proof fn lemma_piece(s: Seq<Item>, a: Seq<Item>, x: Item, t: Seq<Item>)
    requires
        holds_at(s, 0, a.push(x) + t),
    ensures
        holds_at(s, 0, a),
        a.len() < s.len(),
        s[a.len() as int] == x,
        holds_at(s, a.len() as int + 1, t),
{
    let b = a.push(x) + t;
    assert forall|i: int| 0 <= i < a.len() implies (#[trigger] s[0 + i]) == a[i] by {
        assert(s[0 + i] == b[i]);
    }
    assert(s[0 + a.len() as int] == b[a.len() as int]);
    assert forall|i: int| 0 <= i < t.len() implies (#[trigger] s[a.len() + 1 + i]) == t[i] by {
        assert(s[0 + (a.len() + 1 + i)] == b[a.len() + 1 + i]);
    }
}

/// A configuration as it is read back when `caller` sent it: the identity
/// is the caller's, and the task has no id yet.
pub open spec fn adopted(c: TaskConfigView, caller: CallerView) -> TaskConfigView {
    TaskConfigView {
        bundle: caller.bundle,
        atomic_account: if c.bundle_type == ATOMIC_SERVICE {
            caller.account
        } else {
            Seq::empty()
        },
        common_data: CommonTaskConfig {
            task_id: 0,
            uid: caller.uid,
            token_id: caller.token_id,
            ..c.common_data
        },
        ..c
    }
}

/// What can be read back as it was written: the configuration can be
/// written, no key occurs twice among its headers or its extras, and its
/// descriptors are not negative and stand with the user files only.
pub open spec fn round_trips(c: TaskConfigView) -> bool {
    &&& encodable(c)
    &&& distinct_keys(c.headers)
    &&& distinct_keys(c.extras)
    &&& forall|i: int| 0 <= i < c.file_specs.len() ==> readable_file(#[trigger] c.file_specs[i])
}

/// Reading back what was written: the values that `serialize` puts behind
/// `before` are read, from the position where `before` ends, as the same
/// configuration with the caller's identity, and reading ends where the
/// values end.
#[verifier::rlimit(100)]
#[verifier::spinoff_prover]
pub proof fn lemma_config_round_trip(before: Seq<Item>, c: TaskConfigView, caller: CallerView)
    requires
        round_trips(c),
    ensures
        decode_config(append_config(before, c), before.len() as int, caller) == Some(
            (adopted(c, caller), append_config(before, c).len() as int),
        ),
{
    let s = append_config(before, c);
    let s1 = append_head(before, c);
    let n1 = Item::U32(c.certs_path.len() as u32);
    let e1 = encode_texts(c.certs_path);
    let s2 = s1.push(n1) + e1;
    let n2 = Item::U32(c.form_items.len() as u32);
    let e2 = encode_pairs(form_pairs(c.form_items));
    let s3 = s2.push(n2) + e2;
    let n3 = Item::U32(c.file_specs.len() as u32);
    let e3 = encode_files(c.file_specs);
    let s4 = s3.push(n3) + e3;
    let n4 = Item::U32(c.body_file_paths.len() as u32);
    let e4 = encode_texts(c.body_file_paths);
    let s5 = s4.push(n4) + e4;
    let n5 = Item::U32(c.headers.len() as u32);
    let e5 = encode_pairs(c.headers);
    let s6 = s5.push(n5) + e5;
    let n6 = Item::U32(c.extras.len() as u32);
    let e6 = encode_pairs(c.extras);
    assert(s == s6.push(n6) + e6);
    assert(holds_at(s, 0, s));
    lemma_piece(s, s6, n6, e6);
    lemma_piece(s, s5, n5, e5);
    lemma_piece(s, s4, n4, e4);
    lemma_piece(s, s3, n3, e3);
    lemma_piece(s, s2, n2, e2);
    lemma_piece(s, s1, n1, e1);
    lemma_append_head_index(before, c);
    lemma_head_round_trip(s, before, c);
    let p0 = before.len() as int;
    lemma_texts_round_trip(s, s1.len() as int, c.certs_path);
    lemma_pairs_round_trip(s, s2.len() as int, form_pairs(c.form_items));
    lemma_files_round_trip(s, s3.len() as int + 1, c.file_specs);
    lemma_texts_round_trip(s, s4.len() as int, c.body_file_paths);
    lemma_pairs_round_trip(s, s5.len() as int, c.headers);
    lemma_pairs_round_trip(s, s6.len() as int, c.extras);
    crate::strmap::lemma_put_all_distinct(c.headers);
    crate::strmap::lemma_put_all_distinct(c.extras);
    crate::config::lemma_enum_round_trip(
        c.common_data.action,
        c.common_data.mode,
        c.version,
        c.common_data.network_config,
    );
    crate::config::lemma_wrap_round_trip(c.common_data.begins, 0);
    assert(forms_of(form_pairs(c.form_items)) =~= c.form_items);
    assert(s1.len() == p0 + 30);
    assert(s2.len() == s1.len() + 1 + c.certs_path.len());
    assert(s3.len() == s2.len() + 1 + 2 * c.form_items.len());
    assert(s4.len() == s3.len() + 1 + e3.len());
    assert(s5.len() == s4.len() + 1 + c.body_file_paths.len());
    assert(s6.len() == s5.len() + 1 + 2 * c.headers.len());
    assert(s.len() == s6.len() + 1 + 2 * c.extras.len());
    let h = head_of(c);
    assert(head_at(s, p0) == Some(h));
    assert(decode_counted_texts(s, p0 + 30, 1) == Some((c.certs_path, s2.len() as int)));
    assert(decode_counted_files(s, s3.len() as int) == Some((c.file_specs, s4.len() as int)));
    assert(config_of_head(h, caller).common_data == adopted(c, caller).common_data);
    let d = decode_config(s, p0, caller);
    assert(d.is_some());
    assert(d.unwrap().1 == s.len());
    assert(d.unwrap().0 == adopted(c, caller));
}

} // verus!
