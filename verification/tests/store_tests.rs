use event_sphere_backend::store::StoreMap;
use event_sphere_backend::types::{Ticket, TicketType};

fn batch(id: u64, price: u64) -> Ticket {
    Ticket {
        ticket_id: id,
        event_id: 0,
        ticket_type: TicketType::Regular,
        ticket_price: price,
        num_tickets: 1,
    }
}

#[test]
fn insert_then_get_returns_equal_record() {
    let mut store: StoreMap<Ticket> = StoreMap::new();
    let t = batch(7, 250);
    assert!(store.insert(7, t).is_none());
    let got = *store.get(7).unwrap();
    assert_eq!(got, t);
}

#[test]
fn remove_then_get_returns_nothing() {
    let mut store: StoreMap<Ticket> = StoreMap::new();
    store.insert(7, batch(7, 250));
    let removed = store.remove(7).unwrap();
    assert_eq!(removed, batch(7, 250));
    assert!(store.get(7).is_none());
    assert!(store.remove(7).is_none());
}

#[test]
fn insert_replaces_and_returns_previous() {
    let mut store: StoreMap<Ticket> = StoreMap::new();
    store.insert(3, batch(3, 100));
    let prev = store.insert(3, batch(3, 200)).unwrap();
    assert_eq!(prev.ticket_price, 100);
    assert_eq!(store.get(3).unwrap().ticket_price, 200);
    assert_eq!(store.len(), 1);
}

#[test]
fn iteration_visits_keys_in_order() {
    let mut store: StoreMap<Ticket> = StoreMap::new();
    store.insert(5, batch(5, 1));
    store.insert(1, batch(1, 2));
    store.insert(3, batch(3, 3));
    assert_eq!(store.len(), 3);
    assert_eq!(store.key_at(0), 1);
    assert_eq!(store.key_at(1), 3);
    assert_eq!(store.key_at(2), 5);
    assert_eq!(store.val_at(2).ticket_price, 1);
}

#[test]
fn get_on_missing_key_is_none() {
    let mut store: StoreMap<Ticket> = StoreMap::new();
    store.insert(2, batch(2, 10));
    assert!(store.get(1).is_none());
    assert!(store.get(3).is_none());
}
