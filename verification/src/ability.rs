//! The life of the service.

use crate::text::{parse_u32, parsed_u32};
use vstd::prelude::*;

verus! {

/// Where the service is in its life.
#[derive(Clone, Copy, PartialEq, Eq, Structural, Debug)]
pub enum AbilityState {
    NotInited,
    Initializing,
    Running,
    Stopping,
    Stopped,
}

/// The service as a whole.
pub struct RequestAbility {
    state: AbilityState,
    remote_busy: bool,
}

impl RequestAbility {
    pub closed spec fn state(&self) -> AbilityState {
        self.state
    }

    pub closed spec fn remote_busy(&self) -> bool {
        self.remote_busy
    }

    /// A service that is not started.
    pub fn new() -> (a: RequestAbility)
        ensures
            a.state() == AbilityState::NotInited,
            !a.remote_busy(),
    {
        RequestAbility { state: AbilityState::NotInited, remote_busy: false }
    }

    /// Begins to start the service. Returns whether this call is the one
    /// that starts it, which only the first is.
    pub fn init(&mut self) -> (first: bool)
        ensures
            first == (old(self).state() == AbilityState::NotInited),
            final(self).state() == (if first {
                AbilityState::Initializing
            } else {
                old(self).state()
            }),
            final(self).remote_busy() == old(self).remote_busy(),
    {
        if self.state == AbilityState::NotInited {
            self.state = AbilityState::Initializing;
            true
        } else {
            false
        }
    }

    /// Notes that the parts of the service are started.
    pub fn started(&mut self)
        ensures
            final(self).state() == (if old(self).state() == AbilityState::Initializing {
                AbilityState::Running
            } else {
                old(self).state()
            }),
            final(self).remote_busy() == old(self).remote_busy(),
    {
        if self.state == AbilityState::Initializing {
            self.state = AbilityState::Running;
        }
    }

    /// Stops the service, if it runs. Returns whether this call stopped
    /// it.
    pub fn stop(&mut self) -> (stopped: bool)
        ensures
            stopped == (old(self).state() == AbilityState::Running),
            final(self).state() == (if stopped {
                AbilityState::Stopped
            } else {
                old(self).state()
            }),
            final(self).remote_busy() == old(self).remote_busy(),
    {
        if self.state == AbilityState::Running {
            self.state = AbilityState::Stopping;
            self.state = AbilityState::Stopped;
            true
        } else {
            false
        }
    }

    /// Whether the parts of the service can be used: once it runs, and
    /// still after it stopped.
    pub fn get_instance(&self) -> (ready: bool)
        ensures
            ready == (self.state() == AbilityState::Running || self.state()
                == AbilityState::Stopped),
    {
        self.state == AbilityState::Running || self.state == AbilityState::Stopped
    }

    /// Notes whether a caller is being served.
    pub fn set_remote_busy(&mut self, busy: bool)
        ensures
            final(self).remote_busy() == busy,
            final(self).state() == old(self).state(),
    {
        self.remote_busy = busy;
    }

    /// What the platform is answered when it proposes to unload the idle
    /// service: 0 to accept, -1 to refuse while a caller is being served.
    pub fn on_idle(&self) -> (r: i32)
        ensures
            r == (if self.remote_busy() {
                -1i32
            } else {
                0i32
            }),
    {
        if self.remote_busy {
            -1
        } else {
            0
        }
    }
}

/// The user whose tasks are to be removed when the service is started for
/// the reason `name` with the value `user`: the user that was removed.
pub open spec fn removed_user(name: Seq<char>, user: Option<u32>) -> Option<u32> {
    if name == "usual.event.USER_REMOVED"@ {
        user
    } else {
        None
    }
}

pub fn on_start_with_reason(name: &str, value: &str) -> (user: Option<u32>)
    ensures
        user == removed_user(name@, parsed_u32(value@)),
{
    if name.to_owned() == "usual.event.USER_REMOVED".to_owned() {
        parse_u32(value)
    } else {
        None
    }
}

} // verus!
