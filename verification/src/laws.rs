//! Inventory conservation, proved over the same step predicates that the
//! generation and purchase contracts establish.

use vstd::prelude::*;
use crate::tickets::{InventoryOp, avail, inventory_step};
use crate::types::{Ticket, TicketType};

verus! {

/// Seats generated over a trace of operations.
pub open spec fn total_generated(ops: Seq<InventoryOp>) -> nat
    decreases ops.len(),
{
    if ops.len() == 0 {
        0
    } else {
        total_generated(ops.drop_last()) + (match ops.last() {
            InventoryOp::Generate { n } => n,
            InventoryOp::Purchase { .. } => 0,
        })
    }
}

/// Seats purchased over a trace of operations.
pub open spec fn total_purchased(ops: Seq<InventoryOp>) -> nat
    decreases ops.len(),
{
    if ops.len() == 0 {
        0
    } else {
        total_purchased(ops.drop_last()) + (match ops.last() {
            InventoryOp::Generate { .. } => 0,
            InventoryOp::Purchase { n } => n,
        })
    }
}

/// Each adjacent pair of ticket-store states is related by its operation's
/// effect on the one event and type under consideration.
pub open spec fn valid_inventory_trace(
    states: Seq<Seq<(u64, Ticket)>>,
    ops: Seq<InventoryOp>,
    event_id: u64,
    ticket_type: TicketType,
) -> bool {
    &&& states.len() == ops.len() + 1
    &&& forall|k: int|
        0 <= k < ops.len() ==> inventory_step(
            #[trigger] states[k],
            states[k + 1],
            ops[k],
            event_id,
            ticket_type,
        )
}

/// Conservation of tickets: over any sequence of generation and purchase
/// operations against one event and type, the seats still available at the
/// end plus all seats ever purchased equal the seats available at the start
/// plus all seats ever generated — no ticket is created or destroyed out of
/// thin air.
///
/// The generation and purchase operations establish `inventory_step` for
/// each call they complete, so any run of them forms such a trace.
pub proof fn lemma_inventory_conservation(
    states: Seq<Seq<(u64, Ticket)>>,
    ops: Seq<InventoryOp>,
    event_id: u64,
    ticket_type: TicketType,
)
    requires
        valid_inventory_trace(states, ops, event_id, ticket_type),
    ensures
        avail(states.last(), event_id, ticket_type) + total_purchased(ops) == avail(
            states.first(),
            event_id,
            ticket_type,
        ) + total_generated(ops),
    decreases ops.len(),
{
    if ops.len() == 0 {
        assert(states.last() == states.first());
    } else {
        let states2 = states.drop_last();
        let ops2 = ops.drop_last();
        assert forall|k: int|
            0 <= k < ops2.len() implies inventory_step(
            #[trigger] states2[k],
            states2[k + 1],
            ops2[k],
            event_id,
            ticket_type,
        ) by {
            assert(states2[k] == states[k] && states2[k + 1] == states[k + 1] && ops2[k] == ops[k]);
        }
        lemma_inventory_conservation(states2, ops2, event_id, ticket_type);
        assert(inventory_step(
            states[ops.len() - 1],
            states[ops.len() as int],
            ops[ops.len() - 1],
            event_id,
            ticket_type,
        ));
        assert(states2.last() == states[ops.len() - 1]);
        assert(states.last() == states[ops.len() as int]);
    }
}

} // verus!
