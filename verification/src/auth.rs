//! Credential checks: find the user by name, compare password hashes,
//! enforce a minimum role. No rate limiting, lockout or sessions — every
//! privileged operation re-authenticates from the credentials it was handed.

use vstd::prelude::*;
use crate::hashing::{hash_password, sha256_hex_of};
use crate::state::State;
use crate::store::StoreMap;
use crate::types::{AuthFailure, Error, User, UserRole, UserV};

verus! {

/// Index `i` holds the first user record whose username equals `name`, in
/// key order. Duplicate usernames are not prevented; the first match wins.
pub open spec fn is_first_username_match(users: Seq<(u64, UserV)>, name: Seq<char>, i: int) -> bool {
    &&& 0 <= i < users.len()
    &&& users[i].1.username == name
    &&& forall|j: int| 0 <= j < i ==> (#[trigger] users[j]).1.username != name
}

/// Some user record carries the username `name`.
pub open spec fn username_present(users: Seq<(u64, UserV)>, name: Seq<char>) -> bool {
    exists|i: int| 0 <= i < users.len() && (#[trigger] users[i]).1.username == name
}

/// There is at most one first match.
pub proof fn lemma_first_username_match_unique(
    users: Seq<(u64, UserV)>,
    name: Seq<char>,
    i: int,
    j: int,
)
    requires
        is_first_username_match(users, name, i),
        is_first_username_match(users, name, j),
    ensures
        i == j,
{
    if i < j {
        assert(users[i].1.username != name);
    } else if j < i {
        assert(users[j].1.username != name);
    }
}

/// What authenticating `name` with a password whose hash is `hashed` returns
/// against the given user records: the first record with that username, or
/// `NotFound`; refused when the stored hash differs, or when `require_admin`
/// and the stored role is not `Admin`.
pub open spec fn spec_authenticate(
    users: Seq<(u64, UserV)>,
    name: Seq<char>,
    hashed: Seq<char>,
    require_admin: bool,
) -> Result<UserV, Error> {
    if !username_present(users, name) {
        Err(Error::NotFound)
    } else {
        let i = choose|i: int| is_first_username_match(users, name, i);
        let u = users[i].1;
        if u.password != hashed {
            Err(Error::Unauthorized(AuthFailure::IncorrectPassword))
        } else if require_admin && !(u.role is Admin) {
            Err(Error::Unauthorized(AuthFailure::InsufficientPrivileges))
        } else {
            Ok(u)
        }
    }
}

/// The index of the first user whose username equals `username`, if any.
fn find_first_user(users: &StoreMap<User>, username: &String) -> (r: Option<usize>)
    ensures
        match r {
            Some(i) => i < users@.len() && is_first_username_match(users@, username@, i as int),
            None => !username_present(users@, username@),
        },
{
    let n = users.len();
    let mut i: usize = 0;
    while i < n
        invariant
            n == users@.len(),
            i <= n,
            forall|j: int| 0 <= j < i ==> (#[trigger] users@[j]).1.username != username@,
        decreases n - i,
    {
        if users.val_at(i).username == *username {
            return Some(i);
        }
        i = i + 1;
    }
    None
}

impl State {
    /// Authenticates and requires the `Admin` role: the first user record
    /// carrying `username` must exist, its stored hash must equal the hash
    /// of `password`, and its role must be `Admin`.
    pub fn authenticate_admin(&self, username: String, password: String) -> (r: Result<User, Error>)
        requires
            self.wf(),
        ensures
            match r {
                Ok(u) => spec_authenticate(
                    self.users@,
                    username@,
                    sha256_hex_of(password@),
                    true,
                ) == Ok::<UserV, Error>(u@),
                Err(e) => spec_authenticate(
                    self.users@,
                    username@,
                    sha256_hex_of(password@),
                    true,
                ) == Err::<UserV, Error>(e),
            },
    {
        match find_first_user(&self.users, &username) {
            None => Err(Error::NotFound),
            Some(i) => {
                proof {
                    let c = choose|c: int| is_first_username_match(self.users@, username@, c);
                    lemma_first_username_match_unique(self.users@, username@, c, i as int);
                }
                let u = self.users.val_at(i);
                let hashed = hash_password(password.as_str());
                if u.password == hashed {
                    if u.role == UserRole::Admin {
                        Ok(u.clone())
                    } else {
                        Err(Error::Unauthorized(AuthFailure::InsufficientPrivileges))
                    }
                } else {
                    Err(Error::Unauthorized(AuthFailure::IncorrectPassword))
                }
            },
        }
    }

    /// Authenticates at the `User` level: the first user record carrying
    /// `username` must exist and its stored hash must equal the hash of
    /// `password`; either role is accepted.
    pub fn authenticate_user(&self, username: String, password: String) -> (r: Result<User, Error>)
        requires
            self.wf(),
        ensures
            match r {
                Ok(u) => spec_authenticate(
                    self.users@,
                    username@,
                    sha256_hex_of(password@),
                    false,
                ) == Ok::<UserV, Error>(u@),
                Err(e) => spec_authenticate(
                    self.users@,
                    username@,
                    sha256_hex_of(password@),
                    false,
                ) == Err::<UserV, Error>(e),
            },
    {
        match find_first_user(&self.users, &username) {
            None => Err(Error::NotFound),
            Some(i) => {
                proof {
                    let c = choose|c: int| is_first_username_match(self.users@, username@, c);
                    lemma_first_username_match_unique(self.users@, username@, c, i as int);
                }
                let u = self.users.val_at(i);
                let hashed = hash_password(password.as_str());
                if u.password == hashed {
                    if u.role == UserRole::User || u.role == UserRole::Admin {
                        Ok(u.clone())
                    } else {
                        Err(Error::Unauthorized(AuthFailure::InsufficientPrivileges))
                    }
                } else {
                    Err(Error::Unauthorized(AuthFailure::IncorrectPassword))
                }
            },
        }
    }
}

/// Authentication rejects any password whose hash does not equal the stored
/// hash, and rejects a correct password when the stored role does not meet
/// the operation's minimum role.
pub proof fn lemma_authenticate_rejects(
    users: Seq<(u64, UserV)>,
    name: Seq<char>,
    hashed: Seq<char>,
    require_admin: bool,
    i: int,
)
    requires
        is_first_username_match(users, name, i),
    ensures
        users[i].1.password != hashed ==> spec_authenticate(users, name, hashed, require_admin)
            == Err::<UserV, Error>(Error::Unauthorized(AuthFailure::IncorrectPassword)),
        users[i].1.password == hashed && require_admin && !(users[i].1.role is Admin)
            ==> spec_authenticate(users, name, hashed, require_admin) == Err::<UserV, Error>(
            Error::Unauthorized(AuthFailure::InsufficientPrivileges),
        ),
{
    assert(username_present(users, name));
    let c = choose|c: int| is_first_username_match(users, name, c);
    lemma_first_username_match_unique(users, name, c, i);
}

} // verus!
