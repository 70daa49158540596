use event_sphere_backend::state::State;
use event_sphere_backend::types::{AuthFailure, Error, UserPayload, UserPayload1, UserRole};

fn user_payload(username: &str, email: &str, password: &str, role: UserRole) -> UserPayload {
    UserPayload {
        username: username.to_string(),
        email: email.to_string(),
        password: password.to_string(),
        role,
    }
}

fn creds(username: &str, password: &str) -> UserPayload1 {
    UserPayload1 { username: username.to_string(), password: password.to_string() }
}

fn state_with_users() -> State {
    let mut s = State::new();
    s.register_user(user_payload("root", "root@example.com", "rootpw", UserRole::Admin), 10)
        .unwrap();
    s.register_user(user_payload("bob", "bob@example.com", "bobpw", UserRole::User), 20).unwrap();
    s
}

#[test]
fn register_assigns_sequential_ids_and_hashes_password() {
    let mut s = State::new();
    let u0 = s.register_user(user_payload("root", "r@e.c", "abc", UserRole::Admin), 5).unwrap();
    let u1 = s.register_user(user_payload("bob", "b@e.c", "pw2", UserRole::User), 6).unwrap();
    assert_eq!(u0.id, 0);
    assert_eq!(u1.id, 1);
    assert_eq!(u0.username, "root");
    assert_eq!(u0.email, "r@e.c");
    assert_eq!(u0.created_at, 5);
    assert_eq!(u0.updated_at, None);
    // SHA-256("abc"), hex-encoded: the stored field holds the hash, never
    // the plaintext.
    assert_eq!(u0.password, "ba7816bf8f01cfea414140de5dae2223b00361a396177a9cb410ff61f20015ad");
    assert_ne!(u1.password, "pw2");
    assert_eq!(u1.password.len(), 64);
}

#[test]
fn register_rejects_empty_fields() {
    let mut s = State::new();
    let r = s.register_user(user_payload("", "a@b.c", "pw", UserRole::User), 0);
    assert_eq!(r.unwrap_err(), Error::InvalidInput);
    let r = s.register_user(user_payload("x", "", "pw", UserRole::User), 0);
    assert_eq!(r.unwrap_err(), Error::InvalidInput);
    let r = s.register_user(user_payload("x", "a@b.c", "", UserRole::User), 0);
    assert_eq!(r.unwrap_err(), Error::InvalidInput);
    // No identifier was consumed by the rejected attempts.
    let u = s.register_user(user_payload("x", "a@b.c", "pw", UserRole::User), 0).unwrap();
    assert_eq!(u.id, 0);
}

#[test]
fn get_user_round_trip_and_not_found() {
    let s = state_with_users();
    let u = s.get_user(1).unwrap();
    assert_eq!(u.username, "bob");
    assert_eq!(s.get_user(99).unwrap_err(), Error::NotFound);
}

#[test]
fn update_user_replaces_fields_and_rehashes() {
    let mut s = state_with_users();
    let updated = s
        .update_user(
            1,
            user_payload("bobby", "new@example.com", "newpw", UserRole::User),
            creds("bob", "bobpw"),
            77,
        )
        .unwrap();
    assert_eq!(updated.id, 1);
    assert_eq!(updated.username, "bobby");
    assert_eq!(updated.email, "new@example.com");
    assert_eq!(updated.updated_at, Some(77));
    assert_eq!(updated.created_at, 20);
    assert_ne!(updated.password, "newpw");
    assert_eq!(updated.password.len(), 64);
    let stored = s.get_user(1).unwrap();
    assert_eq!(stored.username, "bobby");
}

#[test]
fn update_user_rejects_empty_fields_bad_credentials_and_missing_id() {
    let mut s = state_with_users();
    let r = s.update_user(1, user_payload("", "e", "p", UserRole::User), creds("bob", "bobpw"), 0);
    assert_eq!(r.unwrap_err(), Error::InvalidInput);
    let r = s.update_user(
        1,
        user_payload("u", "e", "p", UserRole::User),
        creds("bob", "wrong"),
        0,
    );
    assert_eq!(r.unwrap_err(), Error::Unauthorized(AuthFailure::IncorrectPassword));
    let r = s.update_user(
        42,
        user_payload("u", "e", "p", UserRole::User),
        creds("root", "rootpw"),
        0,
    );
    assert_eq!(r.unwrap_err(), Error::NotFound);
}

#[test]
fn update_user_enforces_admin_or_self() {
    let mut s = state_with_users();
    // A plain user may not update another user's record.
    let r = s.update_user(
        0,
        user_payload("evil", "e@e.c", "pw", UserRole::Admin),
        creds("bob", "bobpw"),
        0,
    );
    assert_eq!(r.unwrap_err(), Error::Unauthorized(AuthFailure::InsufficientPrivileges));
    assert_eq!(s.get_user(0).unwrap().username, "root");
    // An admin may update anyone; a user may update their own record.
    let r = s.update_user(
        1,
        user_payload("bob2", "b@e.c", "pw2", UserRole::User),
        creds("root", "rootpw"),
        9,
    );
    assert_eq!(r.unwrap().username, "bob2");
    let r = s.update_user(
        1,
        user_payload("bob3", "b@e.c", "pw3", UserRole::User),
        creds("bob2", "pw2"),
        10,
    );
    assert_eq!(r.unwrap().username, "bob3");
}

#[test]
fn delete_user_removes_the_record() {
    let mut s = state_with_users();
    let deleted = s.delete_user(1, creds("root", "rootpw")).unwrap();
    assert_eq!(deleted.username, "bob");
    assert_eq!(s.get_user(1).unwrap_err(), Error::NotFound);
    assert_eq!(s.delete_user(1, creds("root", "rootpw")).unwrap_err(), Error::NotFound);
}

#[test]
fn authenticate_admin_accepts_admin_with_correct_password() {
    let s = state_with_users();
    let u = s.authenticate_admin("root".to_string(), "rootpw".to_string()).unwrap();
    assert_eq!(u.username, "root");
    assert_eq!(u.role, UserRole::Admin);
}

#[test]
fn authenticate_rejects_wrong_password() {
    let s = state_with_users();
    let r = s.authenticate_admin("root".to_string(), "bad".to_string());
    assert_eq!(r.unwrap_err(), Error::Unauthorized(AuthFailure::IncorrectPassword));
    let r = s.authenticate_user("bob".to_string(), "bad".to_string());
    assert_eq!(r.unwrap_err(), Error::Unauthorized(AuthFailure::IncorrectPassword));
}

#[test]
fn authenticate_admin_rejects_non_admin_role() {
    let s = state_with_users();
    let r = s.authenticate_admin("bob".to_string(), "bobpw".to_string());
    assert_eq!(r.unwrap_err(), Error::Unauthorized(AuthFailure::InsufficientPrivileges));
}

#[test]
fn authenticate_unknown_username_is_not_found() {
    let s = state_with_users();
    let r = s.authenticate_admin("ghost".to_string(), "pw".to_string());
    assert_eq!(r.unwrap_err(), Error::NotFound);
}

#[test]
fn authenticate_user_accepts_either_role() {
    let s = state_with_users();
    assert!(s.authenticate_user("root".to_string(), "rootpw".to_string()).is_ok());
    assert!(s.authenticate_user("bob".to_string(), "bobpw".to_string()).is_ok());
}
