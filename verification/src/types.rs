//! The data model: events, users, tickets, attendees, roles, request
//! payloads and the error taxonomy.
//!
//! Each record type has a view capturing every field as a mathematical
//! value; contracts speak of those views.

use vstd::prelude::*;
use crate::date::Date;

verus! {

/// The closed set of ticket types.
#[derive(Clone, Copy, PartialEq, Eq, Structural, Debug)]
pub enum TicketType {
    Regular,
    VVIP,
    VIP,
    Discount,
}

/// A user's role; `Admin` outranks `User`.
#[derive(Clone, Copy, PartialEq, Eq, Structural, Debug)]
pub enum UserRole {
    Admin,
    User,
}

/// Why a credential check was refused.
#[derive(Clone, Copy, PartialEq, Eq, Structural, Debug)]
pub enum AuthFailure {
    /// The supplied password's hash does not equal the stored hash.
    IncorrectPassword,
    /// The password matched but the stored role does not meet the
    /// operation's minimum role.
    InsufficientPrivileges,
}

/// The error taxonomy. Every failure is returned synchronously as one of
/// these kinds; nothing is swallowed or retried.
#[derive(Clone, Copy, PartialEq, Eq, Structural, Debug)]
pub enum Error {
    /// The referenced entity id or name does not exist.
    NotFound,
    /// A caller-supplied field failed validation: an empty required string,
    /// a zero count, or a malformed date.
    InvalidInput,
    /// The credential check failed.
    Unauthorized(AuthFailure),
    /// A purchase requested more units than are currently available.
    InsufficientInventory,
    /// An invariant the earlier validation guaranteed was violated
    /// mid-operation; always a defect signal, never expected.
    InternalConsistency,
}

/// A name on an event's attendee list; append-only, no independent identity.
#[derive(Debug)]
pub struct Attendee {
    pub attendee_name: String,
}

impl View for Attendee {
    type V = Seq<char>;

    open spec fn view(&self) -> Seq<char> {
        self.attendee_name@
    }
}

impl Clone for Attendee {
    fn clone(&self) -> (r: Self)
        ensures
            r@ == self@,
    {
        Attendee { attendee_name: self.attendee_name.clone() }
    }
}

/// The mathematical value of an [`Event`].
pub ghost struct EventV {
    pub id: u64,
    pub event_name: Seq<char>,
    pub details: Seq<char>,
    pub location: Seq<char>,
    pub start_date: Date,
    pub end_date: Date,
    pub timestamp: u64,
    pub attendees: Seq<Seq<char>>,
}

/// An event record: identity, descriptive fields, well-formed start and end
/// dates (not cross-validated against each other), and an ordered,
/// append-only attendee list.
#[derive(Debug)]
pub struct Event {
    pub id: u64,
    pub event_name: String,
    pub details: String,
    pub location: String,
    pub start_date: Date,
    pub end_date: Date,
    pub timestamp: u64,
    pub attendees: Vec<Attendee>,
}

impl View for Event {
    type V = EventV;

    open spec fn view(&self) -> EventV {
        EventV {
            id: self.id,
            event_name: self.event_name@,
            details: self.details@,
            location: self.location@,
            start_date: self.start_date,
            end_date: self.end_date,
            timestamp: self.timestamp,
            attendees: Seq::new(self.attendees@.len(), |i: int| self.attendees@[i]@),
        }
    }
}

/// A field-for-field copy of an attendee list.
pub(crate) fn clone_attendees(v: &Vec<Attendee>) -> (r: Vec<Attendee>)
    ensures
        r@.len() == v@.len(),
        forall|i: int| 0 <= i < v@.len() ==> #[trigger] r@[i]@ == v@[i]@,
{
    let mut r: Vec<Attendee> = Vec::new();
    let n = v.len();
    let mut i: usize = 0;
    while i < n
        invariant
            n == v@.len(),
            i <= n,
            r@.len() == i,
            forall|j: int| 0 <= j < i ==> #[trigger] r@[j]@ == v@[j]@,
        decreases n - i,
    {
        r.push(v[i].clone());
        i = i + 1;
    }
    r
}

impl Clone for Event {
    fn clone(&self) -> (r: Self)
        ensures
            r@ == self@,
    {
        let attendees = clone_attendees(&self.attendees);
        let r = Event {
            id: self.id,
            event_name: self.event_name.clone(),
            details: self.details.clone(),
            location: self.location.clone(),
            start_date: self.start_date,
            end_date: self.end_date,
            timestamp: self.timestamp,
            attendees,
        };
        proof {
            assert(r@.attendees =~= self@.attendees);
        }
        r
    }
}

/// The mathematical value of a [`User`].
pub ghost struct UserV {
    pub id: u64,
    pub username: Seq<char>,
    pub email: Seq<char>,
    pub password: Seq<char>,
    pub role: UserRole,
    pub created_at: u64,
    pub updated_at: Option<u64>,
}

/// A registered user. The password field holds a one-way hash, never the
/// plaintext, after creation and after every update.
#[derive(Debug)]
pub struct User {
    pub id: u64,
    pub username: String,
    pub email: String,
    pub password: String,
    pub role: UserRole,
    pub created_at: u64,
    pub updated_at: Option<u64>,
}

impl View for User {
    type V = UserV;

    open spec fn view(&self) -> UserV {
        UserV {
            id: self.id,
            username: self.username@,
            email: self.email@,
            password: self.password@,
            role: self.role,
            created_at: self.created_at,
            updated_at: self.updated_at,
        }
    }
}

impl Clone for User {
    fn clone(&self) -> (r: Self)
        ensures
            r@ == self@,
    {
        User {
            id: self.id,
            username: self.username.clone(),
            email: self.email.clone(),
            password: self.password.clone(),
            role: self.role,
            created_at: self.created_at,
            updated_at: self.updated_at,
        }
    }
}

/// A ticket batch: one record standing for `num_tickets` identical seats of
/// one type for one event. A live record always has `num_tickets >= 1`; a
/// batch reaching zero is removed rather than left at zero.
#[derive(Clone, Copy, PartialEq, Eq, Structural, Debug)]
pub struct Ticket {
    pub ticket_id: u64,
    pub event_id: u64,
    pub ticket_type: TicketType,
    pub ticket_price: u64,
    pub num_tickets: u32,
}

impl View for Ticket {
    type V = Ticket;

    open spec fn view(&self) -> Ticket {
        *self
    }
}

/// Fields for creating or updating an event, with the admin credentials that
/// authorize the change. Dates are supplied as `"DD-MM-YYYY"` strings.
pub struct EventPayload {
    pub event_name: String,
    pub details: String,
    pub location: String,
    pub username: String,
    pub password: String,
    pub start_date: String,
    pub end_date: String,
}

/// The name to append to an event's attendee list.
pub struct AttendeePayload {
    pub attendee_name: String,
}

/// Fields for generating ticket batches.
pub struct TicketPayload {
    pub event_id: u64,
    pub ticket_type: TicketType,
    pub ticket_price: u64,
    pub num_tickets: u32,
}

/// Fields for purchasing tickets.
pub struct TicketPurchasePayload {
    pub event_id: u64,
    pub ticket_type: TicketType,
    pub attendee_name: String,
    pub num_tickets: u32,
}

/// Fields for registering or updating a user.
pub struct UserPayload {
    pub username: String,
    pub email: String,
    pub password: String,
    pub role: UserRole,
}

/// A username and password presented as credentials.
pub struct UserPayload1 {
    pub username: String,
    pub password: String,
}

} // verus!
