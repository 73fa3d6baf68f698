//! The command that makes tasks: each configuration of a message is read,
//! recorded by the scheduler, given its notification settings, and
//! subscribed to by the caller.

use crate::command::count_at;
use crate::config::{
    file_specs_view, CommonTaskConfig, FileSpec, FileSpecView, Mode, TaskConfig, TaskConfigView,
};
use crate::error::ErrorCode;
use crate::info::State;
use crate::manager::ClientManager;
use crate::notification_bar::NotificationDb;
use crate::parcel::{IpcStatusCode, Item, MsgParcel};
use crate::qos::TaskQosInfo;
use crate::request_task::{check_file_specs, file_spec_ok};
use crate::scheduler::{construct_outcome, constructed, NewTask, Scheduler, SchedulerState};
use crate::serialize::{decode_config, deserialize, Caller, CallerView};
use crate::service::{
    check_count, construct_reply, notification_disabled, notification_off, optional_text,
    optional_text_reached, read_optional_text, write_construct_reply, CONSTRUCT_MAX,
};
use crate::task_id_generator::TaskIdGenerator;
use vstd::prelude::*;

verus! {

/// What the platform says of a caller.
pub struct Rights {
    /// Who the caller is.
    pub caller: Caller,
    /// The process of the caller.
    pub pid: u64,
    /// Whether the caller may use the network.
    pub internet: bool,
    /// Whether the caller may manage the tasks of others.
    pub manager: bool,
    /// Whether the caller belongs to the system.
    pub system_api: bool,
    /// Whether the caller may turn notifications off.
    pub disable_notification: bool,
}

pub struct RightsView {
    pub caller: CallerView,
    pub pid: u64,
    pub internet: bool,
    pub manager: bool,
    pub system_api: bool,
    pub disable_notification: bool,
}

impl View for Rights {
    type V = RightsView;

    open spec fn view(&self) -> RightsView {
        RightsView {
            caller: self.caller@,
            pid: self.pid,
            internet: self.internet,
            manager: self.manager,
            system_api: self.system_api,
            disable_notification: self.disable_notification,
        }
    }
}

/// What making a task may change: the scheduler, the subscriptions, and
/// the titles, texts and switches of the notifications of tasks.
pub struct ServiceState {
    pub scheduler: SchedulerState,
    pub subscriptions: Map<u32, u64>,
    pub titles: Map<u32, (Option<Seq<char>>, Option<Seq<char>>)>,
    pub shown: Map<u32, bool>,
}

/// The state of a service.
pub open spec fn state_of(
    scheduler: &Scheduler,
    clients: &ClientManager,
    notifications: &NotificationDb,
) -> ServiceState {
    ServiceState {
        scheduler: scheduler@,
        subscriptions: clients.subscriptions(),
        titles: notifications.task_titles(),
        shown: notifications.task_shown(),
    }
}

/// A file is acceptable if the caller opened it, or if its path lies in
/// the caller's sandbox and does not lead up out of it.
pub open spec fn path_ok(f: FileSpecView) -> bool {
    f.is_user_file || crate::request_task::in_sandbox(vstd::utf8::encode_utf8(f.path))
}

/// Whether every file is acceptable.
pub open spec fn paths_ok(files: Seq<FileSpecView>) -> bool {
    forall|i: int| 0 <= i < files.len() ==> path_ok(#[trigger] files[i])
}

fn check_paths(file_specs: &Vec<FileSpec>) -> (b: bool)
    ensures
        b == paths_ok(file_specs_view(file_specs@)),
{
    let b = check_file_specs(file_specs);
    proof {
        let views = file_specs_view(file_specs@);
        if b {
            assert forall|i: int| 0 <= i < views.len() implies path_ok(#[trigger] views[i]) by {
                assert(file_spec_ok(file_specs@[i]));
            }
        } else {
            let i = choose|i: int| 0 <= i < file_specs@.len() && !file_spec_ok(#[trigger] file_specs@[i]);
            assert(!path_ok(views[i]));
        }
    }
    b
}

/// What the scheduler is asked to record for a configuration that gets
/// the id `task_id`.
pub open spec fn new_task_for(config: TaskConfigView, task_id: u32) -> NewTask {
    NewTask {
        qos: TaskQosInfo {
            uid: config.common_data.uid,
            task_id,
            action: config.common_data.action,
            mode: config.common_data.mode,
            state: State::Initialized,
            priority: config.common_data.priority,
            ctime: 0,
            network: config.common_data.network_config,
            metered: config.common_data.metered,
            roaming: config.common_data.roaming,
        },
        files: config.file_specs.len() as usize,
    }
}

/// A configuration with its id.
pub open spec fn with_id(config: TaskConfigView, task_id: u32) -> TaskConfigView {
    TaskConfigView {
        common_data: CommonTaskConfig { task_id, ..config.common_data },
        ..config
    }
}

/// What making one task comes to.
pub struct Step {
    pub state: ServiceState,
    /// How far the message is read.
    pub position: int,
    /// The result for the task and its id; nothing where the message
    /// could not be read on.
    pub result: Option<(ErrorCode, u32)>,
    /// The configuration of the task, if the task was recorded.
    pub made: Option<TaskConfigView>,
}

/// The step for a task that was recorded under the id `id`, from the
/// place in the message behind its configuration: an optional title and an
/// optional text follow, which are kept if one is there; then a flag that
/// asks for the notification to be turned off; at last the caller is
/// subscribed to the task, which needs a channel.
pub open spec fn settle_step(
    recorded: ServiceState,
    channels: Set<u64>,
    contents: Seq<Item>,
    pos: int,
    rights: RightsView,
    id: u32,
    mode: Mode,
    made: Option<TaskConfigView>,
) -> Step {
    match optional_text(contents, pos) {
        None => Step {
            state: recorded,
            position: optional_text_reached(contents, pos),
            result: None,
            made,
        },
        Some((title, after_title)) => match optional_text(contents, after_title) {
            None => Step {
                state: recorded,
                position: optional_text_reached(contents, after_title),
                result: None,
                made,
            },
            Some((text, after_text)) => {
                let titled = if title.is_some() || text.is_some() {
                    ServiceState { titles: recorded.titles.insert(id, (title, text)), ..recorded }
                } else {
                    recorded
                };
                if !(0 <= after_text < contents.len() && contents[after_text] is Bool) {
                    Step { state: titled, position: after_text, result: None, made }
                } else {
                    match notification_off(
                        contents[after_text]->Bool_0,
                        rights.system_api,
                        rights.disable_notification,
                        mode,
                    ) {
                        Err(code) => Step {
                            state: titled,
                            position: after_text + 1,
                            result: Some((code, id)),
                            made,
                        },
                        Ok(off) => {
                            let hidden = if off {
                                ServiceState { shown: titled.shown.insert(id, false), ..titled }
                            } else {
                                titled
                            };
                            if channels.contains(rights.pid) {
                                Step {
                                    state: ServiceState {
                                        subscriptions: hidden.subscriptions.insert(id, rights.pid),
                                        ..hidden
                                    },
                                    position: after_text + 1,
                                    result: Some((ErrorCode::ErrOk, id)),
                                    made,
                                }
                            } else {
                                Step {
                                    state: hidden,
                                    position: after_text + 1,
                                    result: Some((ErrorCode::ChannelNotOpen, id)),
                                    made,
                                }
                            }
                        },
                    }
                }
            },
        },
    }
}

/// What making the task whose configuration stands at `pos` comes to,
/// under the id `task_id` at `time`. A configuration that cannot be read
/// is answered with `IpcSizeTooLarge`; one with a file outside the
/// caller's sandbox with `Other`; one that the scheduler refuses with the
/// cause. In each of these cases nothing follows the configuration, and no
/// id is given.
pub open spec fn construct_step(
    st: ServiceState,
    channels: Set<u64>,
    contents: Seq<Item>,
    pos: int,
    rights: RightsView,
    task_id: u32,
    time: u64,
) -> Step {
    match decode_config(contents, pos, rights.caller) {
        None => Step {
            state: st,
            position: pos,
            result: Some((ErrorCode::IpcSizeTooLarge, 0u32)),
            made: None,
        },
        Some((config, after_config)) => {
            let new = new_task_for(config, task_id);
            if !paths_ok(config.file_specs) {
                Step {
                    state: st,
                    position: after_config,
                    result: Some((ErrorCode::Other, 0u32)),
                    made: None,
                }
            } else {
                match construct_outcome(st.scheduler.tasks, new) {
                    Err(code) => Step {
                        state: st,
                        position: after_config,
                        result: Some((code, 0u32)),
                        made: None,
                    },
                    Ok(id) => settle_step(
                        ServiceState { scheduler: constructed(st.scheduler, new, time), ..st },
                        channels,
                        contents,
                        after_config,
                        rights,
                        id,
                        config.common_data.mode,
                        Some(with_id(config, id)),
                    ),
                }
            }
        },
    }
}

/// The view of a configuration that may be missing.
pub open spec fn made_view(made: Option<TaskConfig>) -> Option<TaskConfigView> {
    match made {
        Some(config) => Some(config@),
        None => None,
    }
}

/// Settles what follows the configuration of a task that was recorded.
fn settle(
    clients: &mut ClientManager,
    notifications: &mut NotificationDb,
    data: &mut MsgParcel,
    rights: &Rights,
    id: u32,
    mode: Mode,
) -> (r: Option<(ErrorCode, u32)>)
    requires
        old(notifications).wf(),
        old(data).wf(),
    ensures
        final(notifications).wf(),
        final(data).wf(),
        final(data).contents() == old(data).contents(),
        final(clients).clients() == old(clients).clients(),
        final(notifications).group_notification() == old(notifications).group_notification(),
        final(notifications).group_config() == old(notifications).group_config(),
        final(notifications).group_content() == old(notifications).group_content(),
        forall|s: SchedulerState, made: Option<TaskConfigView>|
            {
                let step = #[trigger] settle_step(
                    ServiceState {
                        scheduler: s,
                        subscriptions: old(clients).subscriptions(),
                        titles: old(notifications).task_titles(),
                        shown: old(notifications).task_shown(),
                    },
                    old(clients).clients(),
                    old(data).contents(),
                    old(data).position(),
                    rights@,
                    id,
                    mode,
                    made,
                );
                &&& step.state == ServiceState {
                    scheduler: s,
                    subscriptions: final(clients).subscriptions(),
                    titles: final(notifications).task_titles(),
                    shown: final(notifications).task_shown(),
                }
                &&& step.position == final(data).position()
                &&& step.result == r
                &&& step.made == made
            },
{
    proof {
        data.lemma_position_in_range();
    }
    let title = match read_optional_text(data) {
        Ok(title) => title,
        Err(_) => {
            return None;
        },
    };
    let text = match read_optional_text(data) {
        Ok(text) => text,
        Err(_) => {
            return None;
        },
    };
    if title.is_some() || text.is_some() {
        notifications.update_task_customized_notification(id, title, text);
    }
    proof {
        data.lemma_position_in_range();
    }
    let asked = match data.read_bool() {
        Ok(asked) => asked,
        Err(_) => {
            return None;
        },
    };
    match notification_disabled(asked, rights.system_api, rights.disable_notification, mode) {
        Err(code) => {
            return Some((code, id));
        },
        Ok(true) => {
            notifications.disable_task_notification(id);
        },
        Ok(false) => {},
    }
    let code = clients.handle_subscribe(id, rights.pid);
    Some((code, id))
}

/// Makes the task whose configuration a message goes on with, under the
/// id `task_id` at `time`. Returns the result for the task with its id,
/// or nothing where the message could not be read on, and the
/// configuration of the task if the task was recorded.
pub fn construct_one(
    scheduler: &mut Scheduler,
    clients: &mut ClientManager,
    notifications: &mut NotificationDb,
    data: &mut MsgParcel,
    rights: &Rights,
    task_id: u32,
    time: u64,
) -> (r: (Option<(ErrorCode, u32)>, Option<TaskConfig>))
    requires
        old(scheduler).wf(),
        old(notifications).wf(),
        old(data).wf(),
    ensures
        final(scheduler).wf(),
        final(notifications).wf(),
        final(data).wf(),
        final(data).contents() == old(data).contents(),
        final(clients).clients() == old(clients).clients(),
        final(notifications).group_notification() == old(notifications).group_notification(),
        final(notifications).group_config() == old(notifications).group_config(),
        final(notifications).group_content() == old(notifications).group_content(),
        ({
            let step = construct_step(
                state_of(old(scheduler), old(clients), old(notifications)),
                old(clients).clients(),
                old(data).contents(),
                old(data).position(),
                rights@,
                task_id,
                time,
            );
            &&& state_of(final(scheduler), final(clients), final(notifications)) == step.state
            &&& final(data).position() == step.position
            &&& r.0 == step.result
            &&& made_view(r.1) == step.made
        }),
{
    let mut config = match deserialize(data, &rights.caller) {
        Ok(config) => config,
        Err(_) => {
            return (Some((ErrorCode::IpcSizeTooLarge, 0)), None);
        },
    };
    if !check_paths(&config.file_specs) {
        return (Some((ErrorCode::Other, 0)), None);
    }
    let new = NewTask {
        qos: TaskQosInfo {
            uid: config.common_data.uid,
            task_id,
            action: config.common_data.action,
            mode: config.common_data.mode,
            state: State::Initialized,
            priority: config.common_data.priority,
            ctime: 0,
            network: config.common_data.network_config,
            metered: config.common_data.metered,
            roaming: config.common_data.roaming,
        },
        files: config.file_specs.len(),
    };
    let ghost decoded = config@;
    assert(new == new_task_for(decoded, task_id));
    let id = match scheduler.construct(new, time) {
        Ok(id) => id,
        Err(code) => {
            return (Some((code, 0)), None);
        },
    };
    let mode = config.common_data.mode;
    config.common_data.task_id = id;
    assert(config@ == with_id(decoded, id));
    let ghost recorded = scheduler@;
    let ghost made = Some(config@);
    let result = settle(clients, notifications, data, rights, id, mode);
    proof {
        let step = settle_step(
            ServiceState {
                scheduler: recorded,
                subscriptions: old(clients).subscriptions(),
                titles: old(notifications).task_titles(),
                shown: old(notifications).task_shown(),
            },
            old(clients).clients(),
            data.contents(),
            decode_config(old(data).contents(), old(data).position(), rights@.caller).unwrap().1,
            rights@,
            id,
            mode,
            made,
        );
        assert(step.result == result);
    }
    (result, Some(config))
}

/// What making tasks one after the other comes to.
pub struct Run {
    pub state: ServiceState,
    /// How far the message is read.
    pub position: int,
    /// The result and the id of each task, in order.
    pub results: Seq<(ErrorCode, u32)>,
    /// The configurations of the tasks that were recorded, in order.
    pub made: Seq<TaskConfigView>,
    /// Whether the message could be read on after each task.
    pub ok: bool,
}

/// What making `n` tasks comes to, whose configurations stand one after
/// the other from `pos` on, and which get the first `n` of `ids`. Once the
/// message cannot be read on, nothing more is done.
pub open spec fn construct_run(
    st: ServiceState,
    channels: Set<u64>,
    contents: Seq<Item>,
    pos: int,
    rights: RightsView,
    ids: Seq<u32>,
    n: int,
    time: u64,
) -> Run
    decreases n,
{
    if n <= 0 {
        Run { state: st, position: pos, results: Seq::empty(), made: Seq::empty(), ok: true }
    } else {
        let before = construct_run(st, channels, contents, pos, rights, ids, n - 1, time);
        if !before.ok {
            before
        } else {
            let step = construct_step(
                before.state,
                channels,
                contents,
                before.position,
                rights,
                ids[n - 1],
                time,
            );
            Run {
                state: step.state,
                position: step.position,
                results: match step.result {
                    Some(result) => before.results.push(result),
                    None => before.results,
                },
                made: match step.made {
                    Some(config) => before.made.push(config),
                    None => before.made,
                },
                ok: step.result.is_some(),
            }
        }
    }
}

/// Once the message could not be read on, nothing more is done.
pub proof fn lemma_run_stops(
    st: ServiceState,
    channels: Set<u64>,
    contents: Seq<Item>,
    pos: int,
    rights: RightsView,
    ids: Seq<u32>,
    k: int,
    n: int,
    time: u64,
)
    requires
        0 <= k <= n,
        !construct_run(st, channels, contents, pos, rights, ids, k, time).ok,
    ensures
        construct_run(st, channels, contents, pos, rights, ids, n, time) == construct_run(
            st,
            channels,
            contents,
            pos,
            rights,
            ids,
            k,
            time,
        ),
    decreases n,
{
    if n > k {
        lemma_run_stops(st, channels, contents, pos, rights, ids, k, n - 1, time);
    }
}

/// The views of configurations.
pub open spec fn configs_view(v: Seq<TaskConfig>) -> Seq<TaskConfigView> {
    Seq::new(v.len(), |i: int| v[i]@)
}

/// What is written to the answer after tasks were made: success and the
/// result and the id of each task, or nothing where the message could not
/// be read to its end.
pub open spec fn run_reply(run: Run) -> Seq<Item> {
    if run.ok {
        construct_reply(run.results)
    } else {
        Seq::empty()
    }
}

/// Makes as many tasks as there are `ids`, from the configurations that a
/// message goes on with, and writes the answer. Returns the
/// configurations of the tasks that were recorded. Fails where the message
/// cannot be read on behind a task that was recorded: the tasks made up to
/// then stay, and nothing is answered.
pub fn construct_tasks(
    scheduler: &mut Scheduler,
    clients: &mut ClientManager,
    notifications: &mut NotificationDb,
    data: &mut MsgParcel,
    reply: &mut MsgParcel,
    rights: &Rights,
    ids: &Vec<u32>,
    time: u64,
) -> (r: (Result<(), IpcStatusCode>, Vec<TaskConfig>))
    requires
        old(scheduler).wf(),
        old(notifications).wf(),
        old(data).wf(),
        old(reply).wf(),
    ensures
        final(scheduler).wf(),
        final(notifications).wf(),
        final(data).wf(),
        final(reply).wf(),
        final(data).contents() == old(data).contents(),
        final(reply).position() == old(reply).position(),
        final(clients).clients() == old(clients).clients(),
        final(notifications).group_notification() == old(notifications).group_notification(),
        final(notifications).group_config() == old(notifications).group_config(),
        final(notifications).group_content() == old(notifications).group_content(),
        ({
            let run = construct_run(
                state_of(old(scheduler), old(clients), old(notifications)),
                old(clients).clients(),
                old(data).contents(),
                old(data).position(),
                rights@,
                ids@,
                ids@.len() as int,
                time,
            );
            &&& state_of(final(scheduler), final(clients), final(notifications)) == run.state
            &&& final(data).position() == run.position
            &&& r.0.is_ok() == run.ok
            &&& configs_view(r.1@) == run.made
            &&& final(reply).contents() == old(reply).contents() + run_reply(run)
        }),
{
    let mut results: Vec<(ErrorCode, u32)> = Vec::new();
    let mut made: Vec<TaskConfig> = Vec::new();
    let mut i: usize = 0;
    proof {
        assert(configs_view(made@) =~= Seq::<TaskConfigView>::empty());
    }
    while i < ids.len()
        invariant
            i <= ids@.len(),
            scheduler.wf(),
            notifications.wf(),
            data.wf(),
            reply.wf(),
            data.contents() == old(data).contents(),
            reply.position() == old(reply).position(),
            reply.contents() == old(reply).contents(),
            clients.clients() == old(clients).clients(),
            notifications.group_notification() == old(notifications).group_notification(),
            notifications.group_config() == old(notifications).group_config(),
            notifications.group_content() == old(notifications).group_content(),
            ({
                let run = construct_run(
                    state_of(old(scheduler), old(clients), old(notifications)),
                    old(clients).clients(),
                    old(data).contents(),
                    old(data).position(),
                    rights@,
                    ids@,
                    i as int,
                    time,
                );
                &&& run.ok
                &&& state_of(scheduler, clients, notifications) == run.state
                &&& data.position() == run.position
                &&& results@ == run.results
                &&& configs_view(made@) == run.made
            }),
        decreases ids@.len() - i,
    {
        let ghost made_before = made@;
        let (result, config) = construct_one(
            scheduler,
            clients,
            notifications,
            data,
            rights,
            ids[i],
            time,
        );
        match config {
            Some(config) => {
                made.push(config);
                proof {
                    assert(configs_view(made@) =~= configs_view(made_before).push(config@));
                }
            },
            None => {},
        }
        match result {
            Some(result) => {
                results.push(result);
            },
            None => {
                proof {
                    lemma_run_stops(
                        state_of(old(scheduler), old(clients), old(notifications)),
                        old(clients).clients(),
                        old(data).contents(),
                        old(data).position(),
                        rights@,
                        ids@,
                        i + 1,
                        ids@.len() as int,
                        time,
                    );
                    assert(old(reply).contents() + Seq::<Item>::empty() =~= old(reply).contents());
                }
                return (Err(IpcStatusCode::Failed), made);
            },
        }
        i = i + 1;
    }
    write_construct_reply(reply, &results);
    (Ok(()), made)
}

/// What a command that makes tasks comes to.
pub struct ConstructAnswer {
    pub ok: bool,
    pub state: ServiceState,
    /// How far the message is read.
    pub position: int,
    /// What is written to the answer.
    pub reply: Seq<Item>,
    /// The configurations of the tasks that were recorded.
    pub made: Seq<TaskConfigView>,
}

/// How many tasks a message asks for, where the caller may make tasks and
/// the message starts with a count within the limit; else none.
pub open spec fn tasks_asked(contents: Seq<Item>, pos: int, rights: RightsView) -> int {
    if (rights.internet || rights.manager) && count_at(contents, pos) && contents[pos]->U32_0
        <= CONSTRUCT_MAX {
        contents[pos]->U32_0 as int
    } else {
        0
    }
}

/// What a command that makes tasks comes to where the tasks get the ids
/// `ids`. The caller needs the permission to use the network, or that to
/// manage the tasks of others, and is answered with `Permission` without.
/// The message holds a count and then as many configurations, each with
/// what follows it. A message without a count is refused with nothing
/// said, and a count over the limit is answered with `Other`.
pub open spec fn construct_answer(
    st: ServiceState,
    channels: Set<u64>,
    contents: Seq<Item>,
    pos: int,
    rights: RightsView,
    ids: Seq<u32>,
    time: u64,
) -> ConstructAnswer {
    if !rights.internet && !rights.manager {
        ConstructAnswer {
            ok: false,
            state: st,
            position: pos,
            reply: seq![Item::I32(ErrorCode::Permission.spec_code() as i32)],
            made: Seq::empty(),
        }
    } else if !count_at(contents, pos) {
        ConstructAnswer {
            ok: false,
            state: st,
            position: pos,
            reply: Seq::empty(),
            made: Seq::empty(),
        }
    } else if contents[pos]->U32_0 > CONSTRUCT_MAX {
        ConstructAnswer {
            ok: false,
            state: st,
            position: pos + 1,
            reply: seq![Item::I32(ErrorCode::Other.spec_code() as i32)],
            made: Seq::empty(),
        }
    } else {
        let run = construct_run(
            st,
            channels,
            contents,
            pos + 1,
            rights,
            ids,
            contents[pos]->U32_0 as int,
            time,
        );
        ConstructAnswer {
            ok: run.ok,
            state: run.state,
            position: run.position,
            reply: run_reply(run),
            made: run.made,
        }
    }
}

fn draw_ids(len: usize) -> (ids: Vec<u32>)
    ensures
        ids@.len() == len,
{
    let mut ids: Vec<u32> = Vec::new();
    let mut i: usize = 0;
    while i < len
        invariant
            i <= len,
            ids@.len() == i,
        decreases len - i,
    {
        ids.push(TaskIdGenerator::generate());
        i = i + 1;
    }
    ids
}

/// Makes the tasks that a message asks for at `time`, each under an id
/// that is drawn for it, and writes the answer. Returns the
/// configurations of the tasks that were recorded. What is done is what
/// `construct_answer` says for the ids that were drawn.
pub fn construct(
    scheduler: &mut Scheduler,
    clients: &mut ClientManager,
    notifications: &mut NotificationDb,
    data: &mut MsgParcel,
    reply: &mut MsgParcel,
    rights: &Rights,
    time: u64,
) -> (r: (Result<(), IpcStatusCode>, Vec<TaskConfig>))
    requires
        old(scheduler).wf(),
        old(notifications).wf(),
        old(data).wf(),
        old(reply).wf(),
    ensures
        final(scheduler).wf(),
        final(notifications).wf(),
        final(data).wf(),
        final(reply).wf(),
        final(data).contents() == old(data).contents(),
        final(reply).position() == old(reply).position(),
        final(clients).clients() == old(clients).clients(),
        final(notifications).group_notification() == old(notifications).group_notification(),
        final(notifications).group_config() == old(notifications).group_config(),
        final(notifications).group_content() == old(notifications).group_content(),
        exists|ids: Seq<u32>|
            {
                let answer = #[trigger] construct_answer(
                    state_of(old(scheduler), old(clients), old(notifications)),
                    old(clients).clients(),
                    old(data).contents(),
                    old(data).position(),
                    rights@,
                    ids,
                    time,
                );
                &&& ids.len() == tasks_asked(old(data).contents(), old(data).position(), rights@)
                &&& r.0.is_ok() == answer.ok
                &&& state_of(final(scheduler), final(clients), final(notifications)) == answer.state
                &&& final(data).position() == answer.position
                &&& final(reply).contents() == old(reply).contents() + answer.reply
                &&& configs_view(r.1@) == answer.made
            },
{
    let ghost st = state_of(scheduler, clients, notifications);
    let ghost channels = clients.clients();
    let ghost contents = data.contents();
    let ghost pos = data.position();
    let ghost before = reply.contents();
    let ghost none = Seq::<u32>::empty();
    proof {
        data.lemma_position_in_range();
        assert(before + Seq::<Item>::empty() =~= before);
        assert(configs_view(Seq::<TaskConfig>::empty()) =~= Seq::<TaskConfigView>::empty());
    }
    if !rights.internet && !rights.manager {
        reply.write_i32(ErrorCode::Permission.code());
        proof {
            assert(before.push(Item::I32(ErrorCode::Permission.spec_code() as i32)) =~= before
                + seq![Item::I32(ErrorCode::Permission.spec_code() as i32)]);
            let answer = construct_answer(st, channels, contents, pos, rights@, none, time);
            assert(reply.contents() == before + answer.reply);
        }
        return (Err(IpcStatusCode::Failed), Vec::new());
    }
    let count = match data.read_u32() {
        Ok(count) => count,
        Err(e) => {
            proof {
                let answer = construct_answer(st, channels, contents, pos, rights@, none, time);
                assert(reply.contents() == before + answer.reply);
            }
            return (Err(e), Vec::new());
        },
    };
    let len = match check_count(count, CONSTRUCT_MAX) {
        Ok(len) => len,
        Err(code) => {
            reply.write_i32(code.code());
            proof {
                assert(before.push(Item::I32(ErrorCode::Other.spec_code() as i32)) =~= before
                    + seq![Item::I32(ErrorCode::Other.spec_code() as i32)]);
                let answer = construct_answer(st, channels, contents, pos, rights@, none, time);
                assert(reply.contents() == before + answer.reply);
            }
            return (Err(IpcStatusCode::Failed), Vec::new());
        },
    };
    let ids = draw_ids(len);
    let r = construct_tasks(scheduler, clients, notifications, data, reply, rights, &ids, time);
    proof {
        let answer = construct_answer(st, channels, contents, pos, rights@, ids@, time);
        assert(r.0.is_ok() == answer.ok);
    }
    r
}

} // verus!
