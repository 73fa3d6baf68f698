//! What is known of the network and of the accounts.

use crate::config::NetworkState;
use std::collections::HashSet;
use vstd::prelude::*;

verus! {

/// How many user ids belong to one account.
pub const UIDS_PER_ACCOUNT: u64 = 200_000;

/// What is known of the network and of the accounts that are active.
pub struct NetworkManager {
    network: NetworkState,
    foreground_account: u64,
    background_accounts: Option<Vec<u64>>,
}

/// The account that a user id belongs to.
pub open spec fn account_of(uid: u64) -> u64 {
    uid / UIDS_PER_ACCOUNT
}

pub fn get_account(uid: u64) -> (account: u64)
    ensures
        account == account_of(uid),
{
    uid / UIDS_PER_ACCOUNT
}

impl NetworkManager {
    pub closed spec fn network(&self) -> NetworkState {
        self.network
    }

    pub closed spec fn foreground(&self) -> u64 {
        self.foreground_account
    }

    pub closed spec fn background(&self) -> Option<Seq<u64>> {
        match self.background_accounts {
            Some(v) => Some(v@),
            None => None,
        }
    }

    /// The accounts that are active: the one in the foreground, and those
    /// that are known to run in the background.
    pub open spec fn active(&self) -> Set<u64> {
        match self.background() {
            Some(v) => v.to_set().insert(self.foreground()),
            None => set![self.foreground()],
        }
    }

    /// A manager for a device that is offline, with account 0 in the
    /// foreground.
    pub fn new() -> (m: NetworkManager)
        ensures
            m.network() == NetworkState::Offline,
            m.foreground() == 0,
            m.background().is_none(),
    {
        NetworkManager {
            network: NetworkState::Offline,
            foreground_account: 0,
            background_accounts: None,
        }
    }

    /// Notes the network that the device is on. Returns whether it
    /// changed.
    pub fn notify_network(&mut self, network: NetworkState) -> (changed: bool)
        ensures
            changed == (network != old(self).network()),
            final(self).network() == network,
            final(self).foreground() == old(self).foreground(),
            final(self).background() == old(self).background(),
    {
        if self.network == network {
            false
        } else {
            self.network = network;
            true
        }
    }

    /// Notes the accounts that are active.
    pub fn update_accounts(&mut self, foreground: u64, background: Option<Vec<u64>>)
        ensures
            final(self).network() == old(self).network(),
            final(self).foreground() == foreground,
            final(self).background() == (match background {
                Some(v) => Some(v@),
                None => None,
            }),
    {
        self.foreground_account = foreground;
        self.background_accounts = background;
    }

    /// Whether the device is on a network.
    pub fn is_online(&self) -> (b: bool)
        ensures
            b == (self.network() is Online),
    {
        match self.network {
            NetworkState::Online(_) => true,
            NetworkState::Offline => false,
        }
    }

    /// The network that the device is on.
    pub fn query_network(&self) -> (n: NetworkState)
        ensures
            n == self.network(),
    {
        self.network
    }

    /// The account in the foreground, and the accounts that are active.
    pub fn query_active_accounts(&self) -> (r: (u64, HashSet<u64>))
        ensures
            r.0 == self.foreground(),
            r.1@ == self.active(),
    {
        broadcast use vstd::std_specs::hash::group_hash_axioms;

        let mut active: HashSet<u64> = HashSet::new();
        active.insert(self.foreground_account);
        match &self.background_accounts {
            Some(accounts) => {
                let mut i: usize = 0;
                proof {
                    assert(accounts@.take(0).to_set() =~= Set::<u64>::empty());
                }
                while i < accounts.len()
                    invariant
                        i <= accounts@.len(),
                        active@ == accounts@.take(i as int).to_set().insert(
                            self.foreground_account,
                        ),
                    decreases accounts@.len() - i,
                {
                    active.insert(accounts[i]);
                    proof {
                        let done = accounts@.take(i as int);
                        assert(accounts@.take(i + 1) =~= done.push(accounts@[i as int]));
                        done.lemma_push_to_set_commute(accounts@[i as int]);
                        assert(active@ =~= accounts@.take(i + 1).to_set().insert(
                            self.foreground_account,
                        ));
                    }
                    i = i + 1;
                }
                proof {
                    assert(accounts@.take(i as int) =~= accounts@);
                }
            },
            None => {
                proof {
                    assert(active@ =~= set![self.foreground_account]);
                }
            },
        }
        (self.foreground_account, active)
    }
}

} // verus!
