use event_sphere_backend::state::State;
use event_sphere_backend::types::{
    Error, EventPayload, TicketPayload, TicketPurchasePayload, TicketType, UserPayload,
    UserPayload1, UserRole,
};

fn creds(username: &str, password: &str) -> UserPayload1 {
    UserPayload1 { username: username.to_string(), password: password.to_string() }
}

fn gen(event_id: u64, ticket_type: TicketType, price: u64, n: u32) -> TicketPayload {
    TicketPayload { event_id, ticket_type, ticket_price: price, num_tickets: n }
}

fn buy(event_id: u64, ticket_type: TicketType, name: &str, n: u32) -> TicketPurchasePayload {
    TicketPurchasePayload {
        event_id,
        ticket_type,
        attendee_name: name.to_string(),
        num_tickets: n,
    }
}

/// A state with an admin "root", a user "bob", and one event with id 0.
fn state_with_event() -> State {
    let mut s = State::new();
    s.register_user(
        UserPayload {
            username: "root".to_string(),
            email: "root@example.com".to_string(),
            password: "rootpw".to_string(),
            role: UserRole::Admin,
        },
        1,
    )
    .unwrap();
    s.register_user(
        UserPayload {
            username: "bob".to_string(),
            email: "bob@example.com".to_string(),
            password: "bobpw".to_string(),
            role: UserRole::User,
        },
        2,
    )
    .unwrap();
    s.add_event(
        EventPayload {
            event_name: "Gala".to_string(),
            details: "details".to_string(),
            location: "hall".to_string(),
            username: "root".to_string(),
            password: "rootpw".to_string(),
            start_date: "01-06-2030".to_string(),
            end_date: "02-06-2030".to_string(),
        },
        100,
    )
    .unwrap();
    s
}

#[test]
fn generate_creates_one_single_seat_batch_per_ticket() {
    let mut s = state_with_event();
    let tickets = s
        .generate_tickets(gen(0, TicketType::Regular, 100, 3), creds("root", "rootpw"))
        .unwrap();
    assert_eq!(tickets.len(), 3);
    for t in &tickets {
        assert_eq!(t.event_id, 0);
        assert_eq!(t.ticket_type, TicketType::Regular);
        assert_eq!(t.ticket_price, 100);
        assert_eq!(t.num_tickets, 1);
    }
    // Each seat gets its own identifier, drawn after the event's (id 0).
    assert_eq!(tickets[0].ticket_id, 1);
    assert_eq!(tickets[1].ticket_id, 2);
    assert_eq!(tickets[2].ticket_id, 3);
}

#[test]
fn generate_for_missing_event_is_not_found() {
    let mut s = state_with_event();
    let r = s.generate_tickets(gen(9, TicketType::Regular, 100, 3), creds("root", "rootpw"));
    assert_eq!(r.unwrap_err(), Error::NotFound);
}

#[test]
fn generate_requires_admin() {
    let mut s = state_with_event();
    let r = s.generate_tickets(gen(0, TicketType::Regular, 100, 3), creds("bob", "bobpw"));
    assert!(r.is_err());
    assert_eq!(s.get_available_tickets_count(0, TicketType::Regular), 0);
}

#[test]
fn purchase_scenario_consumes_and_charges() {
    let mut s = state_with_event();
    // Generate 3 Regular batches of 1 ticket each at price 100 for the event.
    s.generate_tickets(gen(0, TicketType::Regular, 100, 3), creds("root", "rootpw")).unwrap();
    assert_eq!(s.get_available_tickets_count(0, TicketType::Regular), 3);
    // Alice buys 2: success, 2 tickets, total cost 200, 1 seat left.
    let (bought, total) = s
        .purchase_ticket(buy(0, TicketType::Regular, "Alice", 2), creds("bob", "bobpw"))
        .unwrap();
    assert_eq!(bought.len(), 2);
    assert_eq!(total, 200);
    // The copies are the consumed batches themselves, first in key order
    // first: the seats generated as ids 1 and 2, each a full single-seat
    // batch at the generation price.
    assert_eq!(bought[0].ticket_id, 1);
    assert_eq!(bought[1].ticket_id, 2);
    assert_eq!(bought[0].ticket_price, 100);
    assert_eq!(bought[0].num_tickets, 1);
    // The batch with id 3 is the one left in the store.
    let left = s.get_tickets(0).unwrap();
    assert_eq!(left.len(), 1);
    assert_eq!(left[0].ticket_id, 3);
    assert_eq!(s.get_available_tickets_count(0, TicketType::Regular), 1);
    // The purchase recorded Alice as an attendee.
    let names = s.get_attendees(0).unwrap();
    assert_eq!(names.len(), 1);
    assert_eq!(names[0].attendee_name, "Alice");
}

#[test]
fn purchase_more_than_available_fails_without_side_effect() {
    let mut s = state_with_event();
    s.generate_tickets(gen(0, TicketType::Regular, 100, 1), creds("root", "rootpw")).unwrap();
    assert_eq!(s.get_available_tickets_count(0, TicketType::Regular), 1);
    // Bob asks for 2 with only 1 available: refused, nothing consumed.
    let r = s.purchase_ticket(buy(0, TicketType::Regular, "Bob", 2), creds("bob", "bobpw"));
    assert_eq!(r.unwrap_err(), Error::InsufficientInventory);
    assert_eq!(s.get_available_tickets_count(0, TicketType::Regular), 1);
    assert_eq!(s.get_attendees(0).unwrap().len(), 0);
}

#[test]
fn purchase_validates_inputs_and_event() {
    let mut s = state_with_event();
    s.generate_tickets(gen(0, TicketType::Regular, 100, 3), creds("root", "rootpw")).unwrap();
    let r = s.purchase_ticket(buy(0, TicketType::Regular, "", 1), creds("bob", "bobpw"));
    assert_eq!(r.unwrap_err(), Error::InvalidInput);
    let r = s.purchase_ticket(buy(0, TicketType::Regular, "Alice", 0), creds("bob", "bobpw"));
    assert_eq!(r.unwrap_err(), Error::InvalidInput);
    let r = s.purchase_ticket(buy(7, TicketType::Regular, "Alice", 1), creds("bob", "bobpw"));
    assert_eq!(r.unwrap_err(), Error::NotFound);
    assert_eq!(s.get_available_tickets_count(0, TicketType::Regular), 3);
}

#[test]
fn purchase_only_touches_the_requested_type() {
    let mut s = state_with_event();
    s.generate_tickets(gen(0, TicketType::Regular, 100, 2), creds("root", "rootpw")).unwrap();
    s.generate_tickets(gen(0, TicketType::VIP, 500, 2), creds("root", "rootpw")).unwrap();
    let (vip_bought, _) = s
        .purchase_ticket(buy(0, TicketType::VIP, "Alice", 1), creds("bob", "bobpw"))
        .unwrap();
    assert_eq!(vip_bought[0].ticket_type, TicketType::VIP);
    assert_eq!(s.get_available_tickets_count(0, TicketType::VIP), 1);
    assert_eq!(s.get_available_tickets_count(0, TicketType::Regular), 2);
    // The Regular batches themselves are untouched records, not merely an
    // unchanged sum.
    let regular: Vec<_> = s
        .get_tickets(0)
        .unwrap()
        .into_iter()
        .filter(|t| t.ticket_type == TicketType::Regular)
        .collect();
    assert_eq!(regular.len(), 2);
    assert_eq!(regular[0].ticket_id, 1);
    assert_eq!(regular[1].ticket_id, 2);
    assert_eq!(regular[0].ticket_price, 100);
    assert_eq!(regular[1].num_tickets, 1);
}

#[test]
fn availability_is_zero_when_nothing_matches() {
    let s = state_with_event();
    assert_eq!(s.get_available_tickets_count(0, TicketType::Regular), 0);
    assert_eq!(s.get_available_tickets_count(42, TicketType::VVIP), 0);
}

#[test]
fn conservation_over_generations_and_purchases() {
    let mut s = state_with_event();
    let mut generated: usize = 0;
    let mut purchased: usize = 0;
    s.generate_tickets(gen(0, TicketType::Regular, 10, 4), creds("root", "rootpw")).unwrap();
    generated += 4;
    let (b, _) = s
        .purchase_ticket(buy(0, TicketType::Regular, "Alice", 3), creds("bob", "bobpw"))
        .unwrap();
    purchased += b.len();
    s.generate_tickets(gen(0, TicketType::Regular, 10, 2), creds("root", "rootpw")).unwrap();
    generated += 2;
    let (b, _) = s
        .purchase_ticket(buy(0, TicketType::Regular, "Carol", 2), creds("bob", "bobpw"))
        .unwrap();
    purchased += b.len();
    // Remaining plus ever-purchased equals ever-generated.
    let remaining = s.get_available_tickets_count(0, TicketType::Regular);
    assert_eq!(remaining + purchased, generated);
}

#[test]
fn get_tickets_lists_batches_of_the_event() {
    let mut s = state_with_event();
    assert_eq!(s.get_tickets(0).unwrap_err(), Error::NotFound);
    s.generate_tickets(gen(0, TicketType::Regular, 100, 2), creds("root", "rootpw")).unwrap();
    s.generate_tickets(gen(0, TicketType::VIP, 500, 1), creds("root", "rootpw")).unwrap();
    let ts = s.get_tickets(0).unwrap();
    assert_eq!(ts.len(), 3);
    assert_eq!(s.get_tickets(9).unwrap_err(), Error::NotFound);
}

#[test]
fn delete_ticket_removes_one_batch() {
    let mut s = state_with_event();
    let tickets = s
        .generate_tickets(gen(0, TicketType::Regular, 100, 2), creds("root", "rootpw"))
        .unwrap();
    let victim = tickets[0].ticket_id;
    let t = s.delete_ticket(victim, creds("root", "rootpw")).unwrap();
    assert_eq!(t.ticket_id, victim);
    assert_eq!(s.get_available_tickets_count(0, TicketType::Regular), 1);
    assert_eq!(s.delete_ticket(victim, creds("root", "rootpw")).unwrap_err(), Error::NotFound);
}

#[test]
fn identifiers_never_repeat_across_delete_and_recreate() {
    let mut s = state_with_event();
    let tickets = s
        .generate_tickets(gen(0, TicketType::Regular, 100, 2), creds("root", "rootpw"))
        .unwrap();
    let first_ids: Vec<u64> = tickets.iter().map(|t| t.ticket_id).collect();
    for id in &first_ids {
        s.delete_ticket(*id, creds("root", "rootpw")).unwrap();
    }
    let again = s
        .generate_tickets(gen(0, TicketType::Regular, 100, 2), creds("root", "rootpw"))
        .unwrap();
    for t in &again {
        for id in &first_ids {
            assert_ne!(t.ticket_id, *id);
        }
    }
    assert!(again[0].ticket_id > first_ids[1]);
    assert!(again[1].ticket_id > again[0].ticket_id);
}
