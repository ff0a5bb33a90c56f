//! The greeting ledger: members who already received the one-time greeting.
use std::collections::HashSet;
use vstd::prelude::*;

use crate::config::UserId;
use crate::roles::id_set;

verus! {

broadcast use vstd::std_specs::hash::group_hash_axioms;

pub struct Persist {
    pub greeted_users: HashSet<UserId>,
}

impl Persist {
    /// The members already greeted.
    pub open spec fn view(&self) -> Set<UserId> {
        self.greeted_users@
    }

    /// A member is owed a greeting until they are in the ledger.
    pub fn should_greet(&self, user_id: UserId) -> (r: bool)
        ensures
            r == !self@.contains(user_id),
    {
        !self.greeted_users.contains(&user_id)
    }

    /// Records a member as greeted; true when they were not yet recorded.
    pub fn register_greeted(&mut self, user_id: UserId) -> (r: bool)
        ensures
            final(self)@ == old(self)@.insert(user_id),
            r == !old(self)@.contains(user_id),
    {
        self.greeted_users.insert(user_id)
    }

    /// Ends a greeting attempt: the member is recorded only when the greeting
    /// was sent. Returns whether the ledger must now be committed.
    pub fn conclude_greeting(&mut self, user_id: UserId, sent: bool) -> (commit: bool)
        ensures
            commit == sent,
            final(self)@ == if sent {
                old(self)@.insert(user_id)
            } else {
                old(self)@
            },
    {
        if sent {
            self.register_greeted(user_id);
        }
        sent
    }

    /// Replaces the ledger with the given members, so that everyone present
    /// counts as greeted.
    pub fn reset_greeted(&mut self, members: &Vec<UserId>)
        ensures
            final(self)@ == members@.to_set(),
    {
        self.greeted_users = id_set(members);
    }
}

/// Recording a member twice leaves the ledger as recording them once, and a
/// member once recorded stays recorded whoever is recorded after them, so
/// they are never owed a greeting again.
pub proof fn lemma_greeted_once(ledger: Set<UserId>, user_id: UserId, later: Seq<UserId>)
    ensures
        ledger.insert(user_id).insert(user_id) == ledger.insert(user_id),
        ledger.insert(user_id).union(later.to_set()).contains(user_id),
{
    assert(ledger.insert(user_id).insert(user_id) =~= ledger.insert(user_id));
}

impl Default for Persist {
    fn default() -> (r: Persist)
        ensures
            r@ == Set::<UserId>::empty(),
    {
        Persist { greeted_users: HashSet::new() }
    }
}

/// The ledger as the running bot holds it, swapped whole on reload.
pub struct PersistContainer {
    pub persist: Persist,
}

impl PersistContainer {
    pub open spec fn view(&self) -> Set<UserId> {
        self.persist@
    }

    pub fn new(persist: Persist) -> (r: PersistContainer)
        ensures
            r@ == persist@,
    {
        PersistContainer { persist }
    }

    /// Installs a freshly loaded ledger in place of the current one.
    pub fn reload(&mut self, fresh: Persist)
        ensures
            final(self)@ == fresh@,
    {
        self.persist = fresh;
    }
}

} // verus!
