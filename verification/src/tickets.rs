//! The ticket inventory manager: batch generation, availability, deletion
//! and the purchase workflow, which checks availability, decrements
//! inventory and records an attendee without ever overselling.

use vstd::prelude::*;
use crate::auth::spec_authenticate;
use crate::hashing::sha256_hex_of;
use crate::state::State;
use crate::store::{
    StoreMap,
    filtered_vals,
    key_index,
    lemma_key_index_unique,
    lemma_remove_preserves_others,
    lemma_update_preserves_others,
    seq_contains_key,
    seq_get,
};
use crate::types::{
    Attendee,
    Error,
    Ticket,
    TicketPayload,
    TicketPurchasePayload,
    TicketType,
    UserPayload1,
};
use crate::events::with_attendee;

verus! {

/// The batch belongs to the given event and carries the given type.
pub open spec fn ticket_matches(t: Ticket, event_id: u64, ticket_type: TicketType) -> bool {
    t.event_id == event_id && t.ticket_type == ticket_type
}

/// How many seats one store entry contributes for the given event and type.
pub open spec fn ticket_weight(p: (u64, Ticket), event_id: u64, ticket_type: TicketType) -> nat {
    if ticket_matches(p.1, event_id, ticket_type) {
        p.1.num_tickets as nat
    } else {
        0
    }
}

/// The available count: the sum of `num_tickets` across all live batches of
/// the given event and type.
pub open spec fn avail(s: Seq<(u64, Ticket)>, event_id: u64, ticket_type: TicketType) -> nat
    decreases s.len(),
{
    if s.len() == 0 {
        0
    } else {
        avail(s.drop_last(), event_id, ticket_type) + ticket_weight(s.last(), event_id, ticket_type)
    }
}

/// One inventory operation against one event and type, counted in seats.
pub ghost enum InventoryOp {
    Generate { n: nat },
    Purchase { n: nat },
}

/// What one operation does to the availability of one event and type:
/// generation adds its seats; a purchase removes exactly the seats it
/// requested, and only goes through when that many were available.
pub open spec fn inventory_step(
    pre: Seq<(u64, Ticket)>,
    post: Seq<(u64, Ticket)>,
    op: InventoryOp,
    event_id: u64,
    ticket_type: TicketType,
) -> bool {
    match op {
        InventoryOp::Generate { n } => avail(post, event_id, ticket_type) == avail(
            pre,
            event_id,
            ticket_type,
        ) + n,
        InventoryOp::Purchase { n } => avail(pre, event_id, ticket_type) >= n && avail(
            post,
            event_id,
            ticket_type,
        ) + n == avail(pre, event_id, ticket_type),
    }
}

/// Availability over a prefix never exceeds availability over the whole.
pub proof fn lemma_avail_take_le(
    s: Seq<(u64, Ticket)>,
    i: int,
    event_id: u64,
    ticket_type: TicketType,
)
    requires
        0 <= i <= s.len(),
    ensures
        avail(s.take(i), event_id, ticket_type) <= avail(s, event_id, ticket_type),
    decreases s.len() - i,
{
    if i == s.len() {
        assert(s.take(i) =~= s);
    } else {
        assert(s.take(i + 1).drop_last() =~= s.take(i));
        assert(s.take(i + 1).last() == s[i]);
        lemma_avail_take_le(s, i + 1, event_id, ticket_type);
    }
}

/// Inserting an entry adds exactly its weight to the availability.
pub proof fn lemma_avail_insert(
    s: Seq<(u64, Ticket)>,
    i: int,
    p: (u64, Ticket),
    event_id: u64,
    ticket_type: TicketType,
)
    requires
        0 <= i <= s.len(),
    ensures
        avail(s.insert(i, p), event_id, ticket_type) == avail(s, event_id, ticket_type)
            + ticket_weight(p, event_id, ticket_type),
    decreases s.len(),
{
    let t = s.insert(i, p);
    if i == s.len() {
        assert(t.drop_last() =~= s);
        assert(t.last() == p);
    } else {
        assert(t.last() == s.last());
        assert(t.drop_last() =~= s.drop_last().insert(i, p));
        lemma_avail_insert(s.drop_last(), i, p, event_id, ticket_type);
    }
}

/// Replacing the entry at `i` shifts the availability by the difference of
/// the weights.
pub proof fn lemma_avail_update(
    s: Seq<(u64, Ticket)>,
    i: int,
    p: (u64, Ticket),
    event_id: u64,
    ticket_type: TicketType,
)
    requires
        0 <= i < s.len(),
    ensures
        avail(s.update(i, p), event_id, ticket_type) + ticket_weight(s[i], event_id, ticket_type)
            == avail(s, event_id, ticket_type) + ticket_weight(p, event_id, ticket_type),
    decreases s.len(),
{
    let t = s.update(i, p);
    if i == s.len() - 1 {
        assert(t.drop_last() =~= s.drop_last());
        assert(t.last() == p);
    } else {
        assert(t.last() == s.last());
        assert(t.drop_last() =~= s.drop_last().update(i, p));
        assert(s.drop_last()[i] == s[i]);
        lemma_avail_update(s.drop_last(), i, p, event_id, ticket_type);
    }
}

/// Removing the entry at `i` subtracts exactly its weight from the
/// availability.
pub proof fn lemma_avail_remove(
    s: Seq<(u64, Ticket)>,
    i: int,
    event_id: u64,
    ticket_type: TicketType,
)
    requires
        0 <= i < s.len(),
    ensures
        avail(s.remove(i), event_id, ticket_type) + ticket_weight(s[i], event_id, ticket_type)
            == avail(s, event_id, ticket_type),
    decreases s.len(),
{
    let t = s.remove(i);
    if i == s.len() - 1 {
        assert(t =~= s.drop_last());
    } else {
        assert(t.last() == s.last());
        assert(t.drop_last() =~= s.drop_last().remove(i));
        assert(s.drop_last()[i] == s[i]);
        lemma_avail_remove(s.drop_last(), i, event_id, ticket_type);
    }
}

/// Where no entry matches, nothing is available.
pub proof fn lemma_avail_no_match(s: Seq<(u64, Ticket)>, event_id: u64, ticket_type: TicketType)
    requires
        forall|j: int|
            0 <= j < s.len() ==> !ticket_matches((#[trigger] s[j]).1, event_id, ticket_type),
    ensures
        avail(s, event_id, ticket_type) == 0,
    decreases s.len(),
{
    if s.len() > 0 {
        assert(!ticket_matches(s[s.len() - 1].1, event_id, ticket_type));
        lemma_avail_no_match(s.drop_last(), event_id, ticket_type);
    }
}

/// Index `i` holds the first batch, in key order, of the given event and
/// type.
pub open spec fn is_first_ticket_match(
    s: Seq<(u64, Ticket)>,
    event_id: u64,
    ticket_type: TicketType,
    i: int,
) -> bool {
    &&& 0 <= i < s.len()
    &&& ticket_matches(s[i].1, event_id, ticket_type)
    &&& forall|j: int| 0 <= j < i ==> !ticket_matches((#[trigger] s[j]).1, event_id, ticket_type)
}

/// There is at most one first matching batch.
pub proof fn lemma_first_ticket_match_unique(
    s: Seq<(u64, Ticket)>,
    event_id: u64,
    ticket_type: TicketType,
    i: int,
    j: int,
)
    requires
        is_first_ticket_match(s, event_id, ticket_type, i),
        is_first_ticket_match(s, event_id, ticket_type, j),
    ensures
        i == j,
{
    if i < j {
        assert(!ticket_matches(s[i].1, event_id, ticket_type));
    } else if j < i {
        assert(!ticket_matches(s[j].1, event_id, ticket_type));
    }
}

/// The index of the first matching batch; meaningful when one exists.
pub open spec fn first_match_index(s: Seq<(u64, Ticket)>, event_id: u64, ticket_type: TicketType) -> int {
    choose|i: int| is_first_ticket_match(s, event_id, ticket_type, i)
}

/// The copy a purchase collects for one seat: the first matching batch as
/// it stands before the decrement.
pub open spec fn consumed_copy(s: Seq<(u64, Ticket)>, event_id: u64, ticket_type: TicketType) -> Ticket {
    s[first_match_index(s, event_id, ticket_type)].1
}

/// The store after one seat is consumed from the first matching batch: its
/// count drops by one, and a batch whose last seat went is removed.
pub open spec fn consume_one(s: Seq<(u64, Ticket)>, event_id: u64, ticket_type: TicketType) -> Seq<
    (u64, Ticket),
> {
    let i = first_match_index(s, event_id, ticket_type);
    let t = s[i].1;
    if t.num_tickets == 1 {
        s.remove(i)
    } else {
        s.update(
            i,
            (
                s[i].0,
                Ticket {
                    ticket_id: t.ticket_id,
                    event_id: t.event_id,
                    ticket_type: t.ticket_type,
                    ticket_price: t.ticket_price,
                    num_tickets: (t.num_tickets - 1) as u32,
                },
            ),
        )
    }
}

/// The store and the collected copies after `n` seats are consumed, one at
/// a time, always from the first matching batch in key order.
pub open spec fn consume_seats(
    s: Seq<(u64, Ticket)>,
    event_id: u64,
    ticket_type: TicketType,
    n: nat,
) -> (Seq<(u64, Ticket)>, Seq<Ticket>)
    decreases n,
{
    if n == 0 {
        (s, Seq::empty())
    } else {
        let rest = consume_seats(consume_one(s, event_id, ticket_type), event_id, ticket_type, (n
            - 1) as nat);
        (rest.0, seq![consumed_copy(s, event_id, ticket_type)] + rest.1)
    }
}

/// Consuming `n + 1` seats is consuming `n` and then one more.
pub proof fn lemma_consume_seats_snoc(
    s: Seq<(u64, Ticket)>,
    event_id: u64,
    ticket_type: TicketType,
    n: nat,
)
    ensures
        consume_seats(s, event_id, ticket_type, n + 1).0 == consume_one(
            consume_seats(s, event_id, ticket_type, n).0,
            event_id,
            ticket_type,
        ),
        consume_seats(s, event_id, ticket_type, n + 1).1 == consume_seats(
            s,
            event_id,
            ticket_type,
            n,
        ).1.push(consumed_copy(consume_seats(s, event_id, ticket_type, n).0, event_id, ticket_type)),
    decreases n,
{
    let c1 = consume_one(s, event_id, ticket_type);
    let x0 = consumed_copy(s, event_id, ticket_type);
    if n == 0 {
        assert(consume_seats(s, event_id, ticket_type, 0) == (s, Seq::<Ticket>::empty()));
        assert(consume_seats(c1, event_id, ticket_type, 0) == (c1, Seq::<Ticket>::empty()));
        assert(consume_seats(s, event_id, ticket_type, 1).0 == c1);
        assert(consume_seats(s, event_id, ticket_type, 1).1 == seq![x0] + Seq::<Ticket>::empty());
        assert(seq![x0] + Seq::<Ticket>::empty() =~= Seq::<Ticket>::empty().push(x0));
    } else {
        let m = (n - 1) as nat;
        lemma_consume_seats_snoc(c1, event_id, ticket_type, m);
        let p = consume_seats(c1, event_id, ticket_type, m);
        let x1 = consumed_copy(p.0, event_id, ticket_type);
        assert(consume_seats(s, event_id, ticket_type, n + 1).0 == consume_seats(
            c1,
            event_id,
            ticket_type,
            n,
        ).0);
        assert(consume_seats(s, event_id, ticket_type, n + 1).1 == seq![x0] + consume_seats(
            c1,
            event_id,
            ticket_type,
            n,
        ).1);
        assert(consume_seats(s, event_id, ticket_type, n).0 == p.0);
        assert(consume_seats(s, event_id, ticket_type, n).1 == seq![x0] + p.1);
        assert(seq![x0] + p.1.push(x1) =~= (seq![x0] + p.1).push(x1));
    }
}

/// Every key holding a batch of another event or type, and every unused
/// key, is untouched: its record in `post` is exactly its record in `pre`.
pub open spec fn other_tickets_preserved(
    pre: Seq<(u64, Ticket)>,
    post: Seq<(u64, Ticket)>,
    event_id: u64,
    ticket_type: TicketType,
) -> bool {
    forall|k: u64|
        (seq_get(pre, k) is None ==> #[trigger] seq_get(post, k) is None) && (seq_get(
            pre,
            k,
        ) matches Some(t) && !ticket_matches(t, event_id, ticket_type) ==> seq_get(post, k)
            == seq_get(pre, k))
}

/// The batch record generation stores for one seat.
pub open spec fn generated_ticket(
    id: u64,
    event_id: u64,
    ticket_type: TicketType,
    price: u64,
) -> Ticket {
    Ticket { ticket_id: id, event_id, ticket_type, ticket_price: price, num_tickets: 1 }
}

/// The index of the first batch of the given event and type, if any.
fn find_first_ticket(tickets: &StoreMap<Ticket>, event_id: u64, ticket_type: TicketType) -> (r:
    Option<usize>)
    ensures
        match r {
            Some(i) => i < tickets@.len() && is_first_ticket_match(
                tickets@,
                event_id,
                ticket_type,
                i as int,
            ),
            None => forall|j: int|
                0 <= j < tickets@.len() ==> !ticket_matches(
                    (#[trigger] tickets@[j]).1,
                    event_id,
                    ticket_type,
                ),
        },
{
    let n = tickets.len();
    let mut i: usize = 0;
    while i < n
        invariant
            n == tickets@.len(),
            i <= n,
            forall|j: int|
                0 <= j < i ==> !ticket_matches((#[trigger] tickets@[j]).1, event_id, ticket_type),
        decreases n - i,
    {
        let t = tickets.val_at(i);
        if t.event_id == event_id && t.ticket_type == ticket_type {
            return Some(i);
        }
        i = i + 1;
    }
    None
}

impl State {
    /// The number of seats currently available for the given event and
    /// type, recomputed from the live batches; zero when there are none,
    /// never an error.
    pub fn get_available_tickets_count(&self, event_id: u64, ticket_type: TicketType) -> (n: usize)
        requires
            self.wf(),
            avail(self.tickets@, event_id, ticket_type) <= usize::MAX,
        ensures
            n == avail(self.tickets@, event_id, ticket_type),
    {
        let m = self.tickets.len();
        let mut total: usize = 0;
        let mut i: usize = 0;
        while i < m
            invariant
                m == self.tickets@.len(),
                i <= m,
                total == avail(self.tickets@.take(i as int), event_id, ticket_type),
                avail(self.tickets@, event_id, ticket_type) <= usize::MAX,
            decreases m - i,
        {
            let t = self.tickets.val_at(i);
            proof {
                assert(self.tickets@.take(i + 1).drop_last() =~= self.tickets@.take(i as int));
                assert(self.tickets@.take(i + 1).last() == self.tickets@[i as int]);
                lemma_avail_take_le(self.tickets@, i + 1, event_id, ticket_type);
            }
            if t.event_id == event_id && t.ticket_type == ticket_type {
                total = total + (t.num_tickets as usize);
            }
            i = i + 1;
        }
        proof {
            assert(self.tickets@.take(m as int) =~= self.tickets@);
        }
        total
    }

    /// Generates `num_tickets` single-seat batches for an existing event:
    /// one record per seat, each with its own fresh identifier and
    /// `num_tickets == 1`. The caller must authenticate as `Admin`.
    pub fn generate_tickets(&mut self, ticket_payload: TicketPayload, payload: UserPayload1) -> (r:
        Result<Vec<Ticket>, Error>)
        requires
            old(self).wf(),
            old(self).entity_alloc.next_id + ticket_payload.num_tickets <= u64::MAX,
        ensures
            final(self).wf(),
            final(self).events == old(self).events,
            final(self).users == old(self).users,
            final(self).user_alloc == old(self).user_alloc,
            ({
                let auth = spec_authenticate(
                    old(self).users@,
                    payload.username@,
                    sha256_hex_of(payload.password@),
                    true,
                );
                let eid = ticket_payload.event_id;
                let tt = ticket_payload.ticket_type;
                let count = ticket_payload.num_tickets as int;
                let id0 = old(self).entity_alloc.next_id;
                if auth is Err {
                    auth matches Err(e) && r == Err::<Vec<Ticket>, Error>(e) && *final(self)
                        == *old(self)
                } else if seq_get(old(self).events@, eid) is None {
                    r == Err::<Vec<Ticket>, Error>(Error::NotFound) && *final(self) == *old(self)
                } else {
                    &&& r matches Ok(v) && v@.len() == count && forall|i: int|
                        0 <= i < count ==> v@[i] == generated_ticket(
                            (id0 + i) as u64,
                            eid,
                            tt,
                            ticket_payload.ticket_price,
                        )
                    &&& forall|k: u64|
                        id0 <= k < id0 + count ==> seq_get(final(self).tickets@, k) == Some(
                            generated_ticket(k, eid, tt, ticket_payload.ticket_price),
                        )
                    &&& forall|k: u64|
                        !(id0 <= k < id0 + count) ==> seq_get(final(self).tickets@, k) == seq_get(
                            old(self).tickets@,
                            k,
                        )
                    &&& avail(final(self).tickets@, eid, tt) == avail(old(self).tickets@, eid, tt)
                        + count
                    &&& inventory_step(
                        old(self).tickets@,
                        final(self).tickets@,
                        InventoryOp::Generate { n: ticket_payload.num_tickets as nat },
                        eid,
                        tt,
                    )
                    &&& forall|e2: u64, t2: TicketType|
                        !(e2 == eid && t2 == tt) ==> avail(final(self).tickets@, e2, t2) == avail(
                            old(self).tickets@,
                            e2,
                            t2,
                        )
                    &&& final(self).tickets@.len() == old(self).tickets@.len() + count
                    &&& final(self).entity_alloc.next_id == id0 + count
                }
            }),
    {
        if let Err(e) = self.authenticate_admin(payload.username.clone(), payload.password) {
            return Err(e);
        }
        let event_id = ticket_payload.event_id;
        let ticket_type = ticket_payload.ticket_type;
        let price = ticket_payload.ticket_price;
        let num = ticket_payload.num_tickets;
        match self._get_event(&event_id) {
            Some(_) => {},
            None => {
                return Err(Error::NotFound);
            },
        }
        let ghost t0 = self.tickets@;
        let ghost ev0 = self.events;
        let ghost us0 = self.users;
        let ghost ua0 = self.user_alloc;
        let ghost id0 = self.entity_alloc.next_id;
        let mut tickets: Vec<Ticket> = Vec::new();
        let mut k: u32 = 0;
        while k < num
            invariant
                self.wf(),
                k <= num,
                self.events == ev0,
                self.users == us0,
                self.user_alloc == ua0,
                id0 + num <= u64::MAX,
                self.entity_alloc.next_id == id0 + k,
                tickets@.len() == k as int,
                forall|i: int|
                    0 <= i < k ==> tickets@[i] == generated_ticket(
                        (id0 + i) as u64,
                        event_id,
                        ticket_type,
                        price,
                    ),
                forall|kk: u64|
                    id0 <= kk < id0 + k ==> seq_get(self.tickets@, kk) == Some(
                        generated_ticket(kk, event_id, ticket_type, price),
                    ),
                forall|kk: u64|
                    !(id0 <= kk < id0 + k) ==> seq_get(self.tickets@, kk) == seq_get(t0, kk),
                avail(self.tickets@, event_id, ticket_type) == avail(t0, event_id, ticket_type)
                    + k,
                forall|e2: u64, t2: TicketType|
                    !(e2 == event_id && t2 == ticket_type) ==> avail(self.tickets@, e2, t2)
                        == avail(t0, e2, t2),
                self.tickets@.len() == t0.len() + k,
            decreases num - k,
        {
            let ghost pre = self.tickets@;
            let id = self.entity_alloc.next();
            let new_ticket = Ticket {
                ticket_id: id,
                event_id,
                ticket_type,
                ticket_price: price,
                num_tickets: 1,
            };
            proof {
                if seq_contains_key(pre, id) {
                    let j = key_index(pre, id);
                    assert(pre[j].0 == id);
                }
            }
            self.do_insert_ticket(&new_ticket);
            proof {
                let i = choose|i: int|
                    0 <= i <= pre.len() && self.tickets@ == pre.insert(i, (id, new_ticket));
                assert forall|e2: u64, t2: TicketType|
                    avail(self.tickets@, e2, t2) == avail(pre, e2, t2) + ticket_weight(
                        (id, new_ticket),
                        e2,
                        t2,
                    ) by {
                    lemma_avail_insert(pre, i, (id, new_ticket), e2, t2);
                }
            }
            tickets.push(new_ticket);
            k = k + 1;
        }
        Ok(tickets)
    }

    /// Every ticket batch of the given event, of any type, in key order;
    /// `NotFound` when there are none.
    pub fn get_tickets(&self, event_id: u64) -> (r: Result<Vec<Ticket>, Error>)
        requires
            self.wf(),
        ensures
            ({
                let sel = filtered_vals(self.tickets@, |t: Ticket| t.event_id == event_id);
                if sel.len() == 0 {
                    r == Err::<Vec<Ticket>, Error>(Error::NotFound)
                } else {
                    r matches Ok(v) && v@ == sel
                }
            }),
    {
        let n = self.tickets.len();
        let mut out: Vec<Ticket> = Vec::new();
        let mut i: usize = 0;
        while i < n
            invariant
                n == self.tickets@.len(),
                i <= n,
                out@ =~= filtered_vals(
                    self.tickets@.take(i as int),
                    |t: Ticket| t.event_id == event_id,
                ),
            decreases n - i,
        {
            let t = *self.tickets.val_at(i);
            if t.event_id == event_id {
                out.push(t);
            }
            proof {
                assert(self.tickets@.take(i + 1).drop_last() =~= self.tickets@.take(i as int));
                assert(self.tickets@.take(i + 1).last() == self.tickets@[i as int]);
                assert(out@ =~= filtered_vals(
                    self.tickets@.take(i + 1),
                    |t: Ticket| t.event_id == event_id,
                ));
            }
            i = i + 1;
        }
        proof {
            assert(self.tickets@.take(n as int) =~= self.tickets@);
        }
        if out.is_empty() {
            Err(Error::NotFound)
        } else {
            Ok(out)
        }
    }

    /// Removes the ticket batch stored under `ticket_id`; the caller must
    /// authenticate as `Admin`.
    pub fn delete_ticket(&mut self, ticket_id: u64, payload: UserPayload1) -> (r: Result<
        Ticket,
        Error,
    >)
        requires
            old(self).wf(),
        ensures
            final(self).wf(),
            final(self).events == old(self).events,
            final(self).users == old(self).users,
            final(self).entity_alloc == old(self).entity_alloc,
            final(self).user_alloc == old(self).user_alloc,
            ({
                let auth = spec_authenticate(
                    old(self).users@,
                    payload.username@,
                    sha256_hex_of(payload.password@),
                    true,
                );
                if auth is Err {
                    auth matches Err(e) && r == Err::<Ticket, Error>(e) && final(self).tickets@
                        == old(self).tickets@
                } else if seq_get(old(self).tickets@, ticket_id) is None {
                    r == Err::<Ticket, Error>(Error::NotFound) && final(self).tickets@ == old(
                        self,
                    ).tickets@
                } else {
                    &&& r matches Ok(t) && seq_get(old(self).tickets@, ticket_id) == Some(t)
                    &&& seq_get(final(self).tickets@, ticket_id) is None
                    &&& forall|k: u64|
                        k != ticket_id ==> seq_get(final(self).tickets@, k) == seq_get(
                            old(self).tickets@,
                            k,
                        )
                    &&& final(self).tickets@.len() + 1 == old(self).tickets@.len()
                }
            }),
    {
        if let Err(e) = self.authenticate_admin(payload.username.clone(), payload.password) {
            return Err(e);
        }
        match self.tickets.remove(ticket_id) {
            Some(t) => {
                proof {
                    let ki = key_index(old(self).tickets@, ticket_id);
                    assert(old(self).tickets@[ki].0 == ticket_id);
                    assert forall|i2: int|
                        0 <= i2 < self.tickets@.len() implies (#[trigger] self.tickets@[i2]).1.ticket_id
                        == self.tickets@[i2].0 && self.tickets@[i2].0 < self.entity_alloc.next_id
                        && self.tickets@[i2].1.num_tickets >= 1 by {
                        if i2 < ki {
                            assert(self.tickets@[i2] == old(self).tickets@[i2]);
                        } else {
                            assert(self.tickets@[i2] == old(self).tickets@[i2 + 1]);
                        }
                    }
                }
                Ok(t)
            },
            None => Err(Error::NotFound),
        }
    }

    /// The purchase workflow. Inputs are validated and the caller's
    /// credentials checked before any state is touched; then the event must
    /// exist, and at least `num_tickets` seats of the requested type must be
    /// available — otherwise the call fails with no side effect. On success
    /// exactly `num_tickets` seats are consumed, one at a time, always from
    /// the first matching batch in key order (a batch reaching zero is
    /// removed), as [`consume_seats`] lays down; batches of every other
    /// event or type are untouched records. One attendee entry is appended
    /// to the event, and the call returns the collected batch copies
    /// together with `unit_price * num_tickets`, the unit price being that
    /// of the first matching batch.
    pub fn purchase_ticket(
        &mut self,
        payload: TicketPurchasePayload,
        payload1: UserPayload1,
    ) -> (r: Result<(Vec<Ticket>, u64), Error>)
        requires
            old(self).wf(),
            avail(old(self).tickets@, payload.event_id, payload.ticket_type) <= usize::MAX,
            forall|i: int|
                #[trigger] is_first_ticket_match(
                    old(self).tickets@,
                    payload.event_id,
                    payload.ticket_type,
                    i,
                ) ==> old(self).tickets@[i].1.ticket_price * payload.num_tickets <= u64::MAX,
        ensures
            final(self).wf(),
            final(self).users == old(self).users,
            final(self).entity_alloc == old(self).entity_alloc,
            final(self).user_alloc == old(self).user_alloc,
            ({
                let eid = payload.event_id;
                let tt = payload.ticket_type;
                let count = payload.num_tickets as int;
                let auth = spec_authenticate(
                    old(self).users@,
                    payload1.username@,
                    sha256_hex_of(payload1.password@),
                    false,
                );
                let avail0 = avail(old(self).tickets@, eid, tt);
                if payload.attendee_name@.len() == 0 || payload.num_tickets == 0 {
                    r == Err::<(Vec<Ticket>, u64), Error>(Error::InvalidInput) && *final(self)
                        == *old(self)
                } else if auth is Err {
                    auth matches Err(e) && r == Err::<(Vec<Ticket>, u64), Error>(e) && *final(self)
                        == *old(self)
                } else if seq_get(old(self).events@, eid) is None {
                    r == Err::<(Vec<Ticket>, u64), Error>(Error::NotFound) && *final(self)
                        == *old(self)
                } else if avail0 < count {
                    r == Err::<(Vec<Ticket>, u64), Error>(Error::InsufficientInventory)
                        && *final(self) == *old(self)
                } else {
                    &&& r matches Ok(res) && res.0@.len() == count && (forall|i: int|
                        0 <= i < count ==> ticket_matches(#[trigger] res.0@[i], eid, tt)
                            && res.0@[i].num_tickets >= 1) && (exists|i: int|
                        #[trigger] is_first_ticket_match(old(self).tickets@, eid, tt, i) && res.1
                            == old(self).tickets@[i].1.ticket_price * count) && res.0@
                        == consume_seats(
                        old(self).tickets@,
                        eid,
                        tt,
                        payload.num_tickets as nat,
                    ).1
                    &&& final(self).tickets@ == consume_seats(
                        old(self).tickets@,
                        eid,
                        tt,
                        payload.num_tickets as nat,
                    ).0
                    &&& other_tickets_preserved(old(self).tickets@, final(self).tickets@, eid, tt)
                    &&& avail(final(self).tickets@, eid, tt) + count == avail0
                    &&& inventory_step(
                        old(self).tickets@,
                        final(self).tickets@,
                        InventoryOp::Purchase { n: payload.num_tickets as nat },
                        eid,
                        tt,
                    )
                    &&& forall|e2: u64, t2: TicketType|
                        !(e2 == eid && t2 == tt) ==> avail(final(self).tickets@, e2, t2) == avail(
                            old(self).tickets@,
                            e2,
                            t2,
                        )
                    &&& seq_get(old(self).events@, eid) matches Some(prev) && seq_get(
                        final(self).events@,
                        eid,
                    ) == Some(with_attendee(prev, payload.attendee_name@))
                    &&& forall|k: u64|
                        k != eid ==> seq_get(final(self).events@, k) == seq_get(
                            old(self).events@,
                            k,
                        )
                }
            }),
    {
        if payload.attendee_name.as_str().is_empty() || payload.num_tickets == 0 {
            return Err(Error::InvalidInput);
        }
        if let Err(e) = self.authenticate_user(payload1.username.clone(), payload1.password.clone())
            {
            return Err(e);
        }
        let event_id = payload.event_id;
        let ticket_type = payload.ticket_type;
        let num: usize = payload.num_tickets as usize;
        match self._get_event(&event_id) {
            Some(_) => {},
            None => {
                return Err(Error::NotFound);
            },
        }
        let available = self.get_available_tickets_count(event_id, ticket_type);
        if available < num {
            return Err(Error::InsufficientInventory);
        }
        let ticket_price = match find_first_ticket(&self.tickets, event_id, ticket_type) {
            Some(i) => self.tickets.val_at(i).ticket_price,
            None => {
                proof {
                    lemma_avail_no_match(self.tickets@, event_id, ticket_type);
                }
                return Err(Error::InternalConsistency);
            },
        };
        let total_cost = ticket_price * (payload.num_tickets as u64);
        let ghost t0 = self.tickets@;
        let ghost ev0 = self.events;
        let ghost us0 = self.users;
        let ghost ea0 = self.entity_alloc;
        let ghost ua0 = self.user_alloc;
        let mut sold: Vec<Ticket> = Vec::new();
        let mut k: usize = 0;
        while k < num
            invariant
                self.wf(),
                k <= num,
                self.events == ev0,
                self.users == us0,
                self.entity_alloc == ea0,
                self.user_alloc == ua0,
                sold@.len() == k as int,
                forall|i: int|
                    0 <= i < k ==> ticket_matches(#[trigger] sold@[i], event_id, ticket_type)
                        && sold@[i].num_tickets >= 1,
                num <= avail(t0, event_id, ticket_type),
                avail(self.tickets@, event_id, ticket_type) + k == avail(
                    t0,
                    event_id,
                    ticket_type,
                ),
                forall|e2: u64, t2: TicketType|
                    !(e2 == event_id && t2 == ticket_type) ==> avail(self.tickets@, e2, t2)
                        == avail(t0, e2, t2),
                self.tickets@ == consume_seats(t0, event_id, ticket_type, k as nat).0,
                sold@ == consume_seats(t0, event_id, ticket_type, k as nat).1,
                other_tickets_preserved(t0, self.tickets@, event_id, ticket_type),
            decreases num - k,
        {
            let ghost pre = self.tickets@;
            let idx = match find_first_ticket(&self.tickets, event_id, ticket_type) {
                Some(i) => i,
                None => {
                    proof {
                        lemma_avail_no_match(self.tickets@, event_id, ticket_type);
                    }
                    return Err(Error::InternalConsistency);
                },
            };
            let t = *self.tickets.val_at(idx);
            proof {
                assert(is_first_ticket_match(pre, event_id, ticket_type, idx as int));
                let fm = first_match_index(pre, event_id, ticket_type);
                lemma_first_ticket_match_unique(pre, event_id, ticket_type, fm, idx as int);
                assert(consumed_copy(pre, event_id, ticket_type) == t);
            }
            if t.num_tickets == 1 {
                let _ = self.tickets.remove_at(idx);
                proof {
                    assert(consume_one(pre, event_id, ticket_type) == self.tickets@);
                    lemma_remove_preserves_others(pre, idx as int);
                    assert forall|e2: u64, t2: TicketType|
                        avail(self.tickets@, e2, t2) + ticket_weight((pre[idx as int].0, t), e2, t2)
                            == avail(pre, e2, t2) by {
                        lemma_avail_remove(pre, idx as int, e2, t2);
                    }
                    assert forall|i2: int|
                        0 <= i2 < self.tickets@.len() implies (#[trigger] self.tickets@[i2]).1.ticket_id
                        == self.tickets@[i2].0 && self.tickets@[i2].0 < self.entity_alloc.next_id
                        && self.tickets@[i2].1.num_tickets >= 1 by {
                        if i2 < idx {
                            assert(self.tickets@[i2] == pre[i2]);
                        } else {
                            assert(self.tickets@[i2] == pre[i2 + 1]);
                        }
                    }
                }
            } else {
                let nt = Ticket {
                    ticket_id: t.ticket_id,
                    event_id: t.event_id,
                    ticket_type: t.ticket_type,
                    ticket_price: t.ticket_price,
                    num_tickets: t.num_tickets - 1,
                };
                self.tickets.update_at(idx, nt);
                proof {
                    assert(pre[idx as int].0 == t.ticket_id);
                    assert(consume_one(pre, event_id, ticket_type) == self.tickets@);
                    lemma_update_preserves_others(pre, idx as int, (t.ticket_id, nt));
                    assert forall|e2: u64, t2: TicketType|
                        avail(self.tickets@, e2, t2) + ticket_weight((t.ticket_id, t), e2, t2)
                            == avail(pre, e2, t2) + ticket_weight((t.ticket_id, nt), e2, t2) by {
                        lemma_avail_update(pre, idx as int, (t.ticket_id, nt), e2, t2);
                    }
                    assert forall|i2: int|
                        0 <= i2 < self.tickets@.len() implies (#[trigger] self.tickets@[i2]).1.ticket_id
                        == self.tickets@[i2].0 && self.tickets@[i2].0 < self.entity_alloc.next_id
                        && self.tickets@[i2].1.num_tickets >= 1 by {
                        if i2 != idx {
                            assert(self.tickets@[i2] == pre[i2]);
                        }
                    }
                }
            }
            proof {
                let tk = pre[idx as int].0;
                lemma_key_index_unique(pre, idx as int, tk);
                assert forall|kk: u64|
                    (seq_get(t0, kk) is None ==> #[trigger] seq_get(self.tickets@, kk) is None) && (
                    seq_get(t0, kk) matches Some(u) && !ticket_matches(u, event_id, ticket_type)
                        ==> seq_get(self.tickets@, kk) == seq_get(t0, kk)) by {
                    if kk == tk {
                        assert(seq_get(pre, kk) == Some(t));
                        if seq_get(t0, kk) is None {
                            assert(seq_get(pre, kk) is None);
                        }
                    } else {
                        assert(seq_get(self.tickets@, kk) == seq_get(pre, kk));
                    }
                }
            }
            sold.push(t);
            proof {
                lemma_consume_seats_snoc(t0, event_id, ticket_type, k as nat);
                assert(sold@ =~= consume_seats(t0, event_id, ticket_type, (k + 1) as nat).1);
            }
            k = k + 1;
        }
        let mut updated_event = match self.events.get(event_id) {
            Some(e) => e.clone(),
            None => {
                proof {
                    let ki = key_index(old(self).events@, event_id);
                    assert(old(self).events@[ki].0 == event_id);
                }
                return Err(Error::InternalConsistency);
            },
        };
        proof {
            let ki = key_index(old(self).events@, event_id);
            assert(old(self).events@[ki].0 == event_id);
        }
        updated_event.attendees.push(Attendee { attendee_name: payload.attendee_name });
        proof {
            let prev = seq_get(old(self).events@, event_id)->Some_0;
            assert(updated_event@.attendees =~= prev.attendees.push(payload.attendee_name@));
        }
        self.do_insert_event(&updated_event);
        Ok((sold, total_cost))
    }
}

} // verus!
