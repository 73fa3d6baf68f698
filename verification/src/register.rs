//! Registering for the news of the network.

use vstd::prelude::*;

verus! {

/// Why registering failed.
#[derive(Debug, PartialEq, Eq, Structural, Clone, Copy)]
pub enum NetRegisterError {
    AlreadyRegistered,
    RegisterFailed(i32),
}

/// Why unregistering failed.
#[derive(Debug, PartialEq, Eq, Structural, Clone, Copy)]
pub enum NetUnregisterError {
    NotRegistered,
    UnregisterFailed(i32),
}

/// Keeps whether the observers are registered with the platform, and how
/// many there are.
pub struct NetRegistrar {
    observers: usize,
    registered: bool,
}

impl NetRegistrar {
    /// How many observers were added.
    pub closed spec fn observers(&self) -> nat {
        self.observers as nat
    }

    /// Whether the observers are registered.
    pub closed spec fn registered(&self) -> bool {
        self.registered
    }

    pub fn new() -> (r: NetRegistrar)
        ensures
            r.observers() == 0,
            !r.registered(),
    {
        NetRegistrar { observers: 0, registered: false }
    }

    /// Counts an observer that was added. Returns its number, or `None`
    /// where the count does not fit.
    pub fn add_observer(&mut self) -> (index: Option<usize>)
        ensures
            final(self).registered() == old(self).registered(),
            index.is_some() == (old(self).observers() < usize::MAX),
            index.is_some() ==> index.unwrap() == old(self).observers() && final(self).observers()
                == old(self).observers() + 1,
            index.is_none() ==> final(self).observers() == old(self).observers(),
    {
        if self.observers < usize::MAX {
            let index = self.observers;
            self.observers = self.observers + 1;
            Some(index)
        } else {
            None
        }
    }

    /// Whether the platform is to be asked to register: not while the
    /// observers are registered.
    pub fn may_register(&self) -> (r: Result<(), NetRegisterError>)
        ensures
            r == (if self.registered() {
                Err::<(), NetRegisterError>(NetRegisterError::AlreadyRegistered)
            } else {
                Ok::<(), NetRegisterError>(())
            }),
    {
        if self.registered {
            Err(NetRegisterError::AlreadyRegistered)
        } else {
            Ok(())
        }
    }

    /// Settles an attempt to register, given what the platform answered:
    /// whether it handed out a handle, and its code. The attempt succeeds
    /// if the observers were not registered, there is a handle and the
    /// code is zero.
    pub fn register(&mut self, has_handle: bool, code: i32) -> (r: Result<(), NetRegisterError>)
        ensures
            final(self).observers() == old(self).observers(),
            r == (if old(self).registered() {
                Err::<(), NetRegisterError>(NetRegisterError::AlreadyRegistered)
            } else if !has_handle || code != 0 {
                Err::<(), NetRegisterError>(NetRegisterError::RegisterFailed(code))
            } else {
                Ok::<(), NetRegisterError>(())
            }),
            final(self).registered() == (old(self).registered() || r.is_ok()),
    {
        if self.registered {
            return Err(NetRegisterError::AlreadyRegistered);
        }
        if !has_handle {
            return Err(NetRegisterError::RegisterFailed(code));
        }
        if code != 0 {
            return Err(NetRegisterError::RegisterFailed(code));
        }
        self.registered = true;
        Ok(())
    }

    /// Settles an attempt to unregister, given the code that the platform
    /// answered. Where the platform refused, the observers stay
    /// registered.
    pub fn unregister(&mut self, code: i32) -> (r: Result<(), NetUnregisterError>)
        ensures
            final(self).observers() == old(self).observers(),
            r == (if !old(self).registered() {
                Err::<(), NetUnregisterError>(NetUnregisterError::NotRegistered)
            } else if code != 0 {
                Err::<(), NetUnregisterError>(NetUnregisterError::UnregisterFailed(code))
            } else {
                Ok::<(), NetUnregisterError>(())
            }),
            final(self).registered() == (old(self).registered() && r.is_err()),
    {
        if !self.registered {
            return Err(NetUnregisterError::NotRegistered);
        }
        if code != 0 {
            return Err(NetUnregisterError::UnregisterFailed(code));
        }
        self.registered = false;
        Ok(())
    }
}

} // verus!
