//! The canonical state: three persistent record stores and two identifier
//! allocators, owned explicitly and injected into every operation — no
//! ambient access.

use vstd::prelude::*;
use crate::allocator::IdAllocator;
use crate::store::{StoreMap, seq_get, seq_contains_key};
use crate::types::{Event, Ticket, User};

verus! {

/// The five durable namespaces: events, tickets and users, plus the two
/// monotonic counters.
///
/// Events and tickets draw identifiers from one shared allocator and users
/// from their own, preserving the storage layout's observable identifier
/// sequences; a namespace of its own per entity would serve equally well.
pub struct State {
    pub events: StoreMap<Event>,
    pub tickets: StoreMap<Ticket>,
    pub users: StoreMap<User>,
    pub entity_alloc: IdAllocator,
    pub user_alloc: IdAllocator,
}

impl State {
    /// Well-formed state: every store is sorted by key; every record sits
    /// under its own identifier; every identifier in use has been issued
    /// (lies below its allocator's counter); and every live ticket batch
    /// holds at least one seat.
    pub open spec fn wf(&self) -> bool {
        &&& self.events.wf()
        &&& self.tickets.wf()
        &&& self.users.wf()
        &&& forall|i: int|
            0 <= i < self.events@.len() ==> (#[trigger] self.events@[i]).1.id
                == self.events@[i].0 && self.events@[i].0 < self.entity_alloc.next_id
        &&& forall|i: int|
            0 <= i < self.tickets@.len() ==> (#[trigger] self.tickets@[i]).1.ticket_id
                == self.tickets@[i].0 && self.tickets@[i].0 < self.entity_alloc.next_id
                && self.tickets@[i].1.num_tickets >= 1
        &&& forall|i: int|
            0 <= i < self.users@.len() ==> (#[trigger] self.users@[i]).1.id == self.users@[i].0
                && self.users@[i].0 < self.user_alloc.next_id
    }

    /// A fresh, empty state.
    pub fn new() -> (s: State)
        ensures
            s.wf(),
            s.events@.len() == 0,
            s.tickets@.len() == 0,
            s.users@.len() == 0,
            s.entity_alloc.next_id == 0,
            s.user_alloc.next_id == 0,
    {
        State {
            events: StoreMap::new(),
            tickets: StoreMap::new(),
            users: StoreMap::new(),
            entity_alloc: IdAllocator::new(),
            user_alloc: IdAllocator::new(),
        }
    }

    /// Stores a user record under its identifier, which must have been
    /// issued already, replacing any record there.
    pub fn do_insert_user(&mut self, user: User)
        requires
            old(self).wf(),
            user.id < old(self).user_alloc.next_id,
        ensures
            final(self).wf(),
            seq_get(final(self).users@, user.id) == Some(user@),
            forall|k: u64|
                k != user.id ==> seq_get(final(self).users@, k) == seq_get(old(self).users@, k),
            final(self).users@.len() == old(self).users@.len() + (
            if seq_contains_key(old(self).users@, user.id) {
                0int
            } else {
                1int
            }),
            final(self).events == old(self).events,
            final(self).tickets == old(self).tickets,
            final(self).entity_alloc == old(self).entity_alloc,
            final(self).user_alloc == old(self).user_alloc,
    {
        let ghost id = user.id;
        let _ = self.users.insert(user.id, user);
        proof {
            assert forall|i: int| 0 <= i < self.users@.len() implies (#[trigger] self.users@[i]).1.id
                == self.users@[i].0 && self.users@[i].0 < self.user_alloc.next_id by {
                let k = self.users@[i].0;
                crate::store::lemma_key_index_unique(self.users@, i, k);
                if k != id {
                    assert(seq_get(old(self).users@, k) == Some(self.users@[i].1));
                    let j = crate::store::key_index(old(self).users@, k);
                }
            }
        }
    }

    /// Stores an event record under its identifier, which must have been
    /// issued already, replacing any record there.
    pub fn do_insert_event(&mut self, event: &Event)
        requires
            old(self).wf(),
            event.id < old(self).entity_alloc.next_id,
        ensures
            final(self).wf(),
            seq_get(final(self).events@, event.id) == Some(event@),
            forall|k: u64|
                k != event.id ==> seq_get(final(self).events@, k) == seq_get(old(self).events@, k),
            final(self).events@.len() == old(self).events@.len() + (
            if seq_contains_key(old(self).events@, event.id) {
                0int
            } else {
                1int
            }),
            final(self).tickets == old(self).tickets,
            final(self).users == old(self).users,
            final(self).entity_alloc == old(self).entity_alloc,
            final(self).user_alloc == old(self).user_alloc,
    {
        let ghost id = event.id;
        let _ = self.events.insert(event.id, event.clone());
        proof {
            assert forall|i: int|
                0 <= i < self.events@.len() implies (#[trigger] self.events@[i]).1.id
                == self.events@[i].0 && self.events@[i].0 < self.entity_alloc.next_id by {
                let k = self.events@[i].0;
                crate::store::lemma_key_index_unique(self.events@, i, k);
                if k != id {
                    assert(seq_get(old(self).events@, k) == Some(self.events@[i].1));
                    let j = crate::store::key_index(old(self).events@, k);
                }
            }
        }
    }

    /// Stores a ticket batch under its identifier, which must have been
    /// issued already; a live batch always holds at least one seat.
    pub fn do_insert_ticket(&mut self, ticket: &Ticket)
        requires
            old(self).wf(),
            ticket.ticket_id < old(self).entity_alloc.next_id,
            ticket.num_tickets >= 1,
        ensures
            final(self).wf(),
            seq_get(final(self).tickets@, ticket.ticket_id) == Some(*ticket),
            forall|k: u64|
                k != ticket.ticket_id ==> seq_get(final(self).tickets@, k) == seq_get(
                    old(self).tickets@,
                    k,
                ),
            seq_contains_key(old(self).tickets@, ticket.ticket_id) ==> exists|i: int|
                0 <= i < old(self).tickets@.len() && old(self).tickets@[i].0 == ticket.ticket_id
                    && final(self).tickets@ == old(self).tickets@.update(
                    i,
                    (ticket.ticket_id, *ticket),
                ),
            !seq_contains_key(old(self).tickets@, ticket.ticket_id) ==> exists|i: int|
                0 <= i <= old(self).tickets@.len() && final(self).tickets@
                    == old(self).tickets@.insert(i, (ticket.ticket_id, *ticket)),
            final(self).events == old(self).events,
            final(self).users == old(self).users,
            final(self).entity_alloc == old(self).entity_alloc,
            final(self).user_alloc == old(self).user_alloc,
    {
        let ghost id = ticket.ticket_id;
        let prev = self.tickets.insert(ticket.ticket_id, *ticket);
        proof {
            if prev is Some {
                let i = crate::store::key_index(old(self).tickets@, id);
                assert(old(self).tickets@[i].0 == id);
            }
            assert forall|i: int|
                0 <= i < self.tickets@.len() implies (#[trigger] self.tickets@[i]).1.ticket_id
                == self.tickets@[i].0 && self.tickets@[i].0 < self.entity_alloc.next_id
                && self.tickets@[i].1.num_tickets >= 1 by {
                let k = self.tickets@[i].0;
                crate::store::lemma_key_index_unique(self.tickets@, i, k);
                if k != id {
                    assert(seq_get(old(self).tickets@, k) == Some(self.tickets@[i].1));
                    let j = crate::store::key_index(old(self).tickets@, k);
                }
            }
        }
    }

    /// The event stored under `id`, if any.
    pub fn _get_event(&self, id: &u64) -> (r: Option<Event>)
        requires
            self.wf(),
        ensures
            match r {
                Some(e) => seq_get(self.events@, *id) == Some(e@),
                None => seq_get(self.events@, *id) is None,
            },
    {
        match self.events.get(*id) {
            Some(e) => Some(e.clone()),
            None => None,
        }
    }
}

} // verus!
