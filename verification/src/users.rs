//! User registration, lookup, update and deletion.
//!
//! Passwords are hashed before a record is created or updated: the stored
//! password field never holds plaintext.

use vstd::prelude::*;
use crate::auth::spec_authenticate;
use crate::hashing::{hash_password, sha256_hex_of};
use crate::state::State;
use crate::store::{key_index, seq_contains_key, seq_get};
use crate::types::{AuthFailure, Error, User, UserPayload, UserPayload1, UserRole, UserV};

verus! {

/// The record a successful registration stores: a fresh identifier, the
/// supplied fields with the password replaced by its hash, and no update
/// timestamp yet.
pub open spec fn registered_user(
    id: u64,
    username: Seq<char>,
    email: Seq<char>,
    password: Seq<char>,
    role: UserRole,
    now: u64,
) -> UserV {
    UserV {
        id,
        username,
        email,
        password: sha256_hex_of(password),
        role,
        created_at: now,
        updated_at: None,
    }
}

/// The record a successful update stores: identifier and creation timestamp
/// kept, the other fields replaced (password by its hash), and the update
/// timestamp set.
pub open spec fn updated_user(
    prev: UserV,
    username: Seq<char>,
    email: Seq<char>,
    password: Seq<char>,
    role: UserRole,
    now: u64,
) -> UserV {
    UserV {
        id: prev.id,
        username,
        email,
        password: sha256_hex_of(password),
        role,
        created_at: prev.created_at,
        updated_at: Some(now),
    }
}

impl State {
    /// Registers a user: all fields are required, the password is stored
    /// hashed, and the record is created under a fresh identifier.
    pub fn register_user(&mut self, payload: UserPayload, now: u64) -> (r: Result<User, Error>)
        requires
            old(self).wf(),
            old(self).user_alloc.next_id < u64::MAX,
        ensures
            final(self).wf(),
            final(self).events == old(self).events,
            final(self).tickets == old(self).tickets,
            final(self).entity_alloc == old(self).entity_alloc,
            payload.username@.len() == 0 || payload.email@.len() == 0 || payload.password@.len()
                == 0 ==> r == Err::<User, Error>(Error::InvalidInput) && *final(self) == *old(self),
            payload.username@.len() > 0 && payload.email@.len() > 0 && payload.password@.len() > 0
                ==> ({
                let id = old(self).user_alloc.next_id;
                let u = registered_user(
                    id,
                    payload.username@,
                    payload.email@,
                    payload.password@,
                    payload.role,
                    now,
                );
                &&& r matches Ok(ret) && ret@ == u
                &&& !seq_contains_key(old(self).users@, id)
                &&& seq_get(final(self).users@, id) == Some(u)
                &&& forall|k: u64|
                    k != id ==> seq_get(final(self).users@, k) == seq_get(old(self).users@, k)
                &&& final(self).users@.len() == old(self).users@.len() + 1
                &&& final(self).user_alloc.next_id == id + 1
            }),
    {
        if payload.username.as_str().is_empty() || payload.email.as_str().is_empty()
            || payload.password.as_str().is_empty() {
            return Err(Error::InvalidInput);
        }
        let password = hash_password(payload.password.as_str());
        let id = self.user_alloc.next();
        let user = User {
            id,
            username: payload.username,
            email: payload.email,
            password,
            role: payload.role,
            created_at: now,
            updated_at: None,
        };
        let result = user.clone();
        proof {
            if seq_contains_key(old(self).users@, id) {
                let j = key_index(old(self).users@, id);
                assert(old(self).users@[j].0 == id);
            }
        }
        self.do_insert_user(user);
        Ok(result)
    }

    /// The user stored under `user_id`, or `NotFound`.
    pub fn get_user(&self, user_id: u64) -> (r: Result<User, Error>)
        requires
            self.wf(),
        ensures
            match r {
                Ok(u) => seq_get(self.users@, user_id) == Some(u@),
                Err(e) => e == Error::NotFound && seq_get(self.users@, user_id) is None,
            },
    {
        match self.users.get(user_id) {
            Some(u) => Ok(u.clone()),
            None => Err(Error::NotFound),
        }
    }

    /// Replaces the fields of the user stored under `user_id`: all fields
    /// are required, the caller's credentials must authenticate, and the
    /// caller must be an `Admin` or the user stored under `user_id` itself —
    /// anyone else is refused. The new password is stored hashed. Identifier
    /// and creation timestamp are kept; the update timestamp is set to
    /// `now`.
    pub fn update_user(
        &mut self,
        user_id: u64,
        payload: UserPayload,
        payload2: UserPayload1,
        now: u64,
    ) -> (r: Result<User, Error>)
        requires
            old(self).wf(),
        ensures
            final(self).wf(),
            final(self).events == old(self).events,
            final(self).tickets == old(self).tickets,
            final(self).entity_alloc == old(self).entity_alloc,
            final(self).user_alloc == old(self).user_alloc,
            ({
                let invalid = payload.username@.len() == 0 || payload.email@.len() == 0
                    || payload.password@.len() == 0;
                let auth = spec_authenticate(
                    old(self).users@,
                    payload2.username@,
                    sha256_hex_of(payload2.password@),
                    false,
                );
                if invalid {
                    r == Err::<User, Error>(Error::InvalidInput) && final(self).users@ == old(
                        self,
                    ).users@
                } else if auth is Err {
                    auth matches Err(e) && r == Err::<User, Error>(e) && final(self).users@ == old(
                        self,
                    ).users@
                } else if !(auth matches Ok(caller) && (caller.role is Admin || caller.id
                    == user_id)) {
                    r == Err::<User, Error>(
                        Error::Unauthorized(AuthFailure::InsufficientPrivileges),
                    ) && final(self).users@ == old(self).users@
                } else if seq_get(old(self).users@, user_id) is None {
                    r == Err::<User, Error>(Error::NotFound) && final(self).users@ == old(
                        self,
                    ).users@
                } else {
                    seq_get(old(self).users@, user_id) matches Some(prev) && (r matches Ok(ret)
                        && ret@ == updated_user(
                        prev,
                        payload.username@,
                        payload.email@,
                        payload.password@,
                        payload.role,
                        now,
                    ) && seq_get(final(self).users@, user_id) == Some(ret@) && forall|k: u64|
                        k != user_id ==> seq_get(final(self).users@, k) == seq_get(
                            old(self).users@,
                            k,
                        ))
                }
            }),
    {
        if payload.username.as_str().is_empty() || payload.email.as_str().is_empty()
            || payload.password.as_str().is_empty() {
            return Err(Error::InvalidInput);
        }
        let caller = match self.authenticate_user(payload2.username, payload2.password) {
            Ok(u) => u,
            Err(e) => {
                return Err(e);
            },
        };
        if !(caller.role == UserRole::Admin || caller.id == user_id) {
            return Err(Error::Unauthorized(AuthFailure::InsufficientPrivileges));
        }
        let (created_at, id) = match self.users.get(user_id) {
            Some(u) => (u.created_at, u.id),
            None => {
                return Err(Error::NotFound);
            },
        };
        proof {
            let ki = key_index(old(self).users@, user_id);
            assert(old(self).users@[ki].0 == user_id);
        }
        let password = hash_password(payload.password.as_str());
        let user = User {
            id,
            username: payload.username,
            email: payload.email,
            password,
            role: payload.role,
            created_at,
            updated_at: Some(now),
        };
        let result = user.clone();
        self.do_insert_user(user);
        Ok(result)
    }

    /// Removes the user stored under `user_id`; the caller's credentials
    /// must authenticate.
    pub fn delete_user(&mut self, user_id: u64, payload: UserPayload1) -> (r: Result<User, Error>)
        requires
            old(self).wf(),
        ensures
            final(self).wf(),
            final(self).events == old(self).events,
            final(self).tickets == old(self).tickets,
            final(self).entity_alloc == old(self).entity_alloc,
            final(self).user_alloc == old(self).user_alloc,
            ({
                let auth = spec_authenticate(
                    old(self).users@,
                    payload.username@,
                    sha256_hex_of(payload.password@),
                    false,
                );
                if auth is Err {
                    auth matches Err(e) && r == Err::<User, Error>(e) && final(self).users@ == old(
                        self,
                    ).users@
                } else if seq_get(old(self).users@, user_id) is None {
                    r == Err::<User, Error>(Error::NotFound) && final(self).users@ == old(
                        self,
                    ).users@
                } else {
                    &&& r matches Ok(ret) && seq_get(old(self).users@, user_id) == Some(ret@)
                    &&& seq_get(final(self).users@, user_id) is None
                    &&& forall|k: u64|
                        k != user_id ==> seq_get(final(self).users@, k) == seq_get(
                            old(self).users@,
                            k,
                        )
                    &&& final(self).users@.len() + 1 == old(self).users@.len()
                }
            }),
    {
        if let Err(e) = self.authenticate_user(payload.username, payload.password) {
            return Err(e);
        }
        let removed = self.users.remove(user_id);
        match removed {
            Some(user) => {
                proof {
                    let ki = key_index(old(self).users@, user_id);
                    assert(old(self).users@[ki].0 == user_id);
                    assert forall|i2: int|
                        0 <= i2 < self.users@.len() implies (#[trigger] self.users@[i2]).1.id
                        == self.users@[i2].0 && self.users@[i2].0 < self.user_alloc.next_id by {
                        if i2 < ki {
                            assert(self.users@[i2] == old(self).users@[i2]);
                        } else {
                            assert(self.users@[i2] == old(self).users@[i2 + 1]);
                        }
                    }
                }
                Ok(user)
            },
            None => Err(Error::NotFound),
        }
    }
}

} // verus!
