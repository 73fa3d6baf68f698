//! What is known of the applications: which is in front, and which has
//! left the front so lately that its tasks are spared for a while.

use crate::info::ApplicationState;
use std::collections::HashMap;
use vstd::prelude::*;

verus! {

/// What is known of one application.
#[derive(Clone, Copy, PartialEq, Eq, Structural, Debug)]
pub struct AppStateInfo {
    pub state: ApplicationState,
    /// Whether a timer runs at whose end the application counts as gone
    /// from the front.
    pub timer: bool,
}

/// What the keeper of the application states asks for.
#[derive(Clone, Copy, PartialEq, Eq, Structural, Debug)]
pub enum AppStateAction {
    /// Nothing.
    Nothing,
    /// The timer of the application is cancelled.
    CancelTimer,
    /// The timer of the application is cancelled, if one runs, and the
    /// scheduler is told of the new state.
    Notify { cancel_timer: bool },
    /// A timer is started for the application, in place of any that runs.
    StartTimer { replaces: bool },
}

/// The states of the applications that have tasks.
pub struct AppStateManager {
    app_state: HashMap<u64, AppStateInfo>,
}

/// What follows the news that a known application is in `state` now, and
/// what is known of it then. An application that comes to the front is in
/// front at once, and a timer for it is cancelled. One that leaves the
/// front keeps its state for now, and a timer is started.
pub open spec fn change_outcome(known: AppStateInfo, state: ApplicationState) -> (
    AppStateInfo,
    AppStateAction,
) {
    if state == ApplicationState::Foreground {
        if known.state == state {
            (
                AppStateInfo { state: known.state, timer: false },
                if known.timer {
                    AppStateAction::CancelTimer
                } else {
                    AppStateAction::Nothing
                },
            )
        } else {
            (
                AppStateInfo { state, timer: false },
                AppStateAction::Notify { cancel_timer: known.timer },
            )
        }
    } else {
        (
            AppStateInfo { state: known.state, timer: true },
            AppStateAction::StartTimer { replaces: known.timer },
        )
    }
}

impl AppStateManager {
    /// What is known of each application.
    pub closed spec fn view(&self) -> Map<u64, AppStateInfo> {
        self.app_state@
    }

    /// Nothing is known yet.
    pub fn new() -> (m: AppStateManager)
        ensures
            m@ == Map::<u64, AppStateInfo>::empty(),
    {
        AppStateManager { app_state: HashMap::new() }
    }

    /// The state of an application, for a task that is started. Of an
    /// application that is not known yet, `queried` is taken, which the
    /// platform answered, and kept.
    pub fn get_app_state(&mut self, uid: u64, queried: ApplicationState) -> (s: ApplicationState)
        ensures
            old(self)@.contains_key(uid) ==> s == old(self)@[uid].state && final(self)@ == old(self)@,
            !old(self)@.contains_key(uid) ==> s == queried && final(self)@ == old(self)@.insert(
                uid,
                AppStateInfo { state: queried, timer: false },
            ),
    {
        broadcast use vstd::std_specs::hash::group_hash_axioms;

        match self.app_state.get(&uid) {
            Some(info) => info.state,
            None => {
                self.app_state.insert(uid, AppStateInfo { state: queried, timer: false });
                queried
            },
        }
    }

    /// The state of an application; of one that is not known `queried` is
    /// taken and not kept.
    pub fn get_app_raw_state(&self, uid: u64, queried: ApplicationState) -> (s: ApplicationState)
        ensures
            s == (if self@.contains_key(uid) {
                self@[uid].state
            } else {
                queried
            }),
    {
        broadcast use vstd::std_specs::hash::group_hash_axioms;

        match self.app_state.get(&uid) {
            Some(info) => info.state,
            None => queried,
        }
    }

    /// Takes the news that an application is in `state` now. Of an
    /// application that is not known nothing is kept.
    pub fn change_app_state(&mut self, uid: u64, state: ApplicationState) -> (a: AppStateAction)
        ensures
            !old(self)@.contains_key(uid) ==> a == AppStateAction::Nothing && final(self)@ == old(self)@,
            old(self)@.contains_key(uid) ==> a == change_outcome(old(self)@[uid], state).1
                && final(self)@ == old(self)@.insert(
                uid,
                change_outcome(old(self)@[uid], state).0,
            ),
    {
        broadcast use vstd::std_specs::hash::group_hash_axioms;

        let known = match self.app_state.get(&uid) {
            Some(info) => *info,
            None => {
                return AppStateAction::Nothing;
            },
        };
        if state == ApplicationState::Foreground {
            self.app_state.insert(uid, AppStateInfo { state, timer: false });
            if known.state == state {
                if known.timer {
                    AppStateAction::CancelTimer
                } else {
                    AppStateAction::Nothing
                }
            } else {
                AppStateAction::Notify { cancel_timer: known.timer }
            }
        } else {
            self.app_state.insert(uid, AppStateInfo { state: known.state, timer: true });
            AppStateAction::StartTimer { replaces: known.timer }
        }
    }

    /// Takes the end of the timer of an application: the application is in
    /// `state` now, and the scheduler is told. Returns whether the
    /// application is known.
    pub fn trigger_app_state_change(&mut self, uid: u64, state: ApplicationState) -> (known: bool)
        ensures
            known == old(self)@.contains_key(uid),
            known ==> final(self)@ == old(self)@.insert(
                uid,
                AppStateInfo { state, timer: false },
            ),
            !known ==> final(self)@ == old(self)@,
    {
        broadcast use vstd::std_specs::hash::group_hash_axioms;

        if self.app_state.contains_key(&uid) {
            self.app_state.insert(uid, AppStateInfo { state, timer: false });
            true
        } else {
            false
        }
    }
}

/// An application that comes back to the front before its timer ends keeps
/// its tasks: the timer is cancelled, and nothing is told to the
/// scheduler, which never heard that the application had left.
pub proof fn lemma_grace(known: AppStateInfo)
    requires
        known.state == ApplicationState::Foreground,
    ensures
        change_outcome(known, ApplicationState::Background).0.state
            == ApplicationState::Foreground,
        change_outcome(known, ApplicationState::Background).0.timer,
        change_outcome(
            change_outcome(known, ApplicationState::Background).0,
            ApplicationState::Foreground,
        ) == (
            AppStateInfo { state: ApplicationState::Foreground, timer: false },
            AppStateAction::CancelTimer,
        ),
{
}

/// What the state handler asks for when the application in front changes.
#[derive(Clone, Copy, PartialEq, Eq, Structural, Debug)]
pub struct TopUidChange {
    /// Whether a timer of the new application in front is cancelled.
    pub cancel_timer: bool,
    /// The application that left the front, for which a timer is started.
    pub start_timer_for: u64,
    /// After how many seconds that timer ends.
    pub delay: u64,
}

/// The state handler: the application in front, and the applications that
/// left the front and whose grace has not ended.
pub struct Handler {
    top_uid: u64,
    background_timeout: HashMap<u64, bool>,
}

impl Handler {
    /// The application in front.
    pub closed spec fn top_uid(&self) -> u64 {
        self.top_uid
    }

    /// The applications for which a timer runs.
    pub closed spec fn timers(&self) -> Set<u64> {
        self.background_timeout@.dom()
    }

    pub fn new(top_uid: u64) -> (h: Handler)
        ensures
            h.top_uid() == top_uid,
            h.timers() == Set::<u64>::empty(),
    {
        Handler { top_uid, background_timeout: HashMap::new() }
    }

    /// The application in front.
    pub fn get_top_uid(&self) -> (uid: u64)
        ensures
            uid == self.top_uid(),
    {
        self.top_uid
    }

    /// Takes the news that `top_uid` is in front now. Nothing happens if
    /// it was in front already; else a timer of it is cancelled, and one
    /// is started for the application that left the front, which ends
    /// after the time of grace.
    pub fn update_top_uid(&mut self, top_uid: u64) -> (r: Option<TopUidChange>)
        ensures
            final(self).top_uid() == top_uid,
            top_uid == old(self).top_uid() ==> r.is_none() && final(self).timers() == old(self).timers(),
            top_uid != old(self).top_uid() ==> r == Some(
                TopUidChange {
                    cancel_timer: old(self).timers().contains(top_uid),
                    start_timer_for: old(self).top_uid(),
                    delay: crate::scheduler::BACKGROUND_TASK_STOP_INTERVAL,
                },
            ) && final(self).timers() == old(self).timers().remove(top_uid).insert(
                old(self).top_uid(),
            ),
    {
        broadcast use vstd::std_specs::hash::group_hash_axioms;

        let old_top_uid = self.top_uid;
        if old_top_uid == top_uid {
            return None;
        }
        let cancel_timer = self.background_timeout.remove(&top_uid).is_some();
        self.background_timeout.insert(old_top_uid, true);
        self.top_uid = top_uid;
        proof {
            assert(self.background_timeout@.dom() =~= old(self).background_timeout@.dom().remove(
                top_uid,
            ).insert(old_top_uid));
        }
        Some(
            TopUidChange {
                cancel_timer,
                start_timer_for: old_top_uid,
                delay: crate::scheduler::BACKGROUND_TASK_STOP_INTERVAL,
            },
        )
    }

    /// Takes the end of the timer of application `uid`. Returns whether
    /// the tasks of the application are to be taken from the foreground:
    /// that is, whether the timer was not cancelled meanwhile and the
    /// application is not in front.
    pub fn update_background_timeout(&mut self, uid: u64) -> (due: bool)
        ensures
            final(self).top_uid() == old(self).top_uid(),
            final(self).timers() == old(self).timers().remove(uid),
            due == (old(self).timers().contains(uid) && uid != old(self).top_uid()),
    {
        broadcast use vstd::std_specs::hash::group_hash_axioms;

        let had = self.background_timeout.remove(&uid).is_some();
        proof {
            assert(self.background_timeout@.dom() =~= old(self).background_timeout@.dom().remove(
                uid,
            ));
        }
        had && uid != self.top_uid
    }
}

} // verus!
