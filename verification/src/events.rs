//! Event creation, update, deletion, lookup and the attendee list.

use vstd::prelude::*;
use crate::auth::spec_authenticate;
use crate::date::{Date, is_date_string, spec_date_of_string};
use crate::hashing::sha256_hex_of;
use crate::state::State;
use crate::store::{filtered_vals, key_index, seq_contains_key, seq_get};
use crate::types::{
    Attendee,
    AttendeePayload,
    Error,
    Event,
    EventPayload,
    EventV,
    UserPayload1,
    clone_attendees,
};

verus! {

/// The lowercase form of a string's characters; a function of the
/// characters alone.
pub uninterp spec fn lower_of(s: Seq<char>) -> Seq<char>;

/// Relies on str::to_lowercase: the lowercase form depends on the
/// characters alone.
#[verifier::external_body]
fn lowercase(s: &str) -> (r: String)
    ensures
        r@ == lower_of(s@),
{
    s.to_lowercase()
}

/// The record a successful event creation stores: a fresh identifier, the
/// supplied fields with both dates parsed, and an empty attendee list.
pub open spec fn added_event(
    id: u64,
    name: Seq<char>,
    details: Seq<char>,
    location: Seq<char>,
    start: Date,
    end: Date,
    now: u64,
) -> EventV {
    EventV {
        id,
        event_name: name,
        details,
        location,
        start_date: start,
        end_date: end,
        timestamp: now,
        attendees: Seq::empty(),
    }
}

/// The record a successful event update stores: identifier, creation
/// timestamp and attendee list kept, the other fields replaced.
pub open spec fn updated_event(
    prev: EventV,
    name: Seq<char>,
    details: Seq<char>,
    location: Seq<char>,
    start: Date,
    end: Date,
) -> EventV {
    EventV {
        id: prev.id,
        event_name: name,
        details,
        location,
        start_date: start,
        end_date: end,
        timestamp: prev.timestamp,
        attendees: prev.attendees,
    }
}

/// The record after appending one attendee name.
pub open spec fn with_attendee(prev: EventV, name: Seq<char>) -> EventV {
    EventV {
        id: prev.id,
        event_name: prev.event_name,
        details: prev.details,
        location: prev.location,
        start_date: prev.start_date,
        end_date: prev.end_date,
        timestamp: prev.timestamp,
        attendees: prev.attendees.push(name),
    }
}

/// The views of a vector of event records.
pub open spec fn views_of_events(v: Seq<Event>) -> Seq<EventV> {
    Seq::new(v.len(), |i: int| v[i]@)
}

/// Index `i` holds the first event, in key order, whose lowercased name
/// equals the lowercased query.
pub open spec fn is_first_name_match(events: Seq<(u64, EventV)>, q: Seq<char>, i: int) -> bool {
    &&& 0 <= i < events.len()
    &&& lower_of(events[i].1.event_name) == lower_of(q)
    &&& forall|j: int|
        0 <= j < i ==> lower_of((#[trigger] events[j]).1.event_name) != lower_of(q)
}

/// Some event's lowercased name equals the lowercased query.
pub open spec fn name_match_present(events: Seq<(u64, EventV)>, q: Seq<char>) -> bool {
    exists|i: int|
        0 <= i < events.len() && lower_of((#[trigger] events[i]).1.event_name) == lower_of(q)
}

impl State {
    /// Creates an event under a fresh identifier: the caller must
    /// authenticate as `Admin`, all fields are required, and both dates must
    /// be well-formed `"DD-MM-YYYY"` strings.
    ///
    /// The identifier is drawn before the dates are parsed: a malformed
    /// date fails the call with no record created, but the drawn identifier
    /// is consumed and never reused.
    pub fn add_event(&mut self, event: EventPayload, now: u64) -> (r: Result<Event, Error>)
        requires
            old(self).wf(),
            old(self).entity_alloc.next_id < u64::MAX,
        ensures
            final(self).wf(),
            final(self).tickets == old(self).tickets,
            final(self).users == old(self).users,
            final(self).user_alloc == old(self).user_alloc,
            ({
                let auth = spec_authenticate(
                    old(self).users@,
                    event.username@,
                    sha256_hex_of(event.password@),
                    true,
                );
                let invalid = event.event_name@.len() == 0 || event.details@.len() == 0
                    || event.location@.len() == 0 || event.start_date@.len() == 0
                    || event.end_date@.len() == 0;
                if auth is Err {
                    auth matches Err(e) && r == Err::<Event, Error>(e) && *final(self) == *old(self)
                } else if invalid {
                    r == Err::<Event, Error>(Error::InvalidInput) && *final(self) == *old(self)
                } else if !is_date_string(event.start_date@) || !is_date_string(event.end_date@) {
                    &&& r == Err::<Event, Error>(Error::InvalidInput)
                    &&& final(self).events@ == old(self).events@
                    &&& final(self).entity_alloc.next_id == old(self).entity_alloc.next_id + 1
                } else {
                    let id = old(self).entity_alloc.next_id;
                    let ev = added_event(
                        id,
                        event.event_name@,
                        event.details@,
                        event.location@,
                        spec_date_of_string(event.start_date@),
                        spec_date_of_string(event.end_date@),
                        now,
                    );
                    &&& r matches Ok(ret) && ret@ == ev
                    &&& !seq_contains_key(old(self).events@, id)
                    &&& seq_get(final(self).events@, id) == Some(ev)
                    &&& forall|k: u64|
                        k != id ==> seq_get(final(self).events@, k) == seq_get(
                            old(self).events@,
                            k,
                        )
                    &&& final(self).events@.len() == old(self).events@.len() + 1
                    &&& final(self).entity_alloc.next_id == id + 1
                }
            }),
    {
        if let Err(e) = self.authenticate_admin(event.username.clone(), event.password.clone()) {
            return Err(e);
        }
        if event.event_name.as_str().is_empty() || event.details.as_str().is_empty()
            || event.location.as_str().is_empty() || event.start_date.as_str().is_empty()
            || event.end_date.as_str().is_empty() {
            return Err(Error::InvalidInput);
        }
        let id = self.entity_alloc.next();
        let start_date = match Date::from_string(event.start_date.as_str()) {
            Some(d) => d,
            None => {
                return Err(Error::InvalidInput);
            },
        };
        let end_date = match Date::from_string(event.end_date.as_str()) {
            Some(d) => d,
            None => {
                return Err(Error::InvalidInput);
            },
        };
        let ev = Event {
            id,
            event_name: event.event_name,
            details: event.details,
            location: event.location,
            start_date,
            end_date,
            timestamp: now,
            attendees: Vec::new(),
        };
        proof {
            if seq_contains_key(old(self).events@, id) {
                let j = key_index(old(self).events@, id);
                assert(old(self).events@[j].0 == id);
            }
            assert(ev@.attendees =~= Seq::<Seq<char>>::empty());
        }
        self.do_insert_event(&ev);
        Ok(ev)
    }

    /// Replaces the descriptive fields and dates of the event stored under
    /// `event_id`, keeping its identifier, creation timestamp and attendee
    /// list. The caller must authenticate as `Admin`; all fields are
    /// required and both dates must be well-formed.
    pub fn update_event(&mut self, event_id: u64, payload: EventPayload) -> (r: Result<
        Event,
        Error,
    >)
        requires
            old(self).wf(),
        ensures
            final(self).wf(),
            final(self).tickets == old(self).tickets,
            final(self).users == old(self).users,
            final(self).entity_alloc == old(self).entity_alloc,
            final(self).user_alloc == old(self).user_alloc,
            ({
                let auth = spec_authenticate(
                    old(self).users@,
                    payload.username@,
                    sha256_hex_of(payload.password@),
                    true,
                );
                let invalid = payload.event_name@.len() == 0 || payload.details@.len() == 0
                    || payload.location@.len() == 0 || payload.start_date@.len() == 0
                    || payload.end_date@.len() == 0;
                if auth is Err {
                    auth matches Err(e) && r == Err::<Event, Error>(e) && final(self).events@
                        == old(self).events@
                } else if invalid {
                    r == Err::<Event, Error>(Error::InvalidInput) && final(self).events@ == old(
                        self,
                    ).events@
                } else if seq_get(old(self).events@, event_id) is None {
                    r == Err::<Event, Error>(Error::NotFound) && final(self).events@ == old(
                        self,
                    ).events@
                } else if !is_date_string(payload.start_date@) || !is_date_string(
                    payload.end_date@,
                ) {
                    r == Err::<Event, Error>(Error::InvalidInput) && final(self).events@ == old(
                        self,
                    ).events@
                } else {
                    seq_get(old(self).events@, event_id) matches Some(prev) && (r matches Ok(ret)
                        && ret@ == updated_event(
                        prev,
                        payload.event_name@,
                        payload.details@,
                        payload.location@,
                        spec_date_of_string(payload.start_date@),
                        spec_date_of_string(payload.end_date@),
                    ) && seq_get(final(self).events@, event_id) == Some(ret@) && forall|k: u64|
                        k != event_id ==> seq_get(final(self).events@, k) == seq_get(
                            old(self).events@,
                            k,
                        ))
                }
            }),
    {
        if let Err(e) = self.authenticate_admin(payload.username.clone(), payload.password.clone())
            {
            return Err(e);
        }
        if payload.event_name.as_str().is_empty() || payload.details.as_str().is_empty()
            || payload.location.as_str().is_empty() || payload.start_date.as_str().is_empty()
            || payload.end_date.as_str().is_empty() {
            return Err(Error::InvalidInput);
        }
        let (id, timestamp, attendees) = match self.events.get(event_id) {
            Some(e) => (e.id, e.timestamp, clone_attendees(&e.attendees)),
            None => {
                return Err(Error::NotFound);
            },
        };
        proof {
            let ki = key_index(old(self).events@, event_id);
            assert(old(self).events@[ki].0 == event_id);
        }
        let start_date = match Date::from_string(payload.start_date.as_str()) {
            Some(d) => d,
            None => {
                return Err(Error::InvalidInput);
            },
        };
        let end_date = match Date::from_string(payload.end_date.as_str()) {
            Some(d) => d,
            None => {
                return Err(Error::InvalidInput);
            },
        };
        let ev = Event {
            id,
            event_name: payload.event_name,
            details: payload.details,
            location: payload.location,
            start_date,
            end_date,
            timestamp,
            attendees,
        };
        let result = ev.clone();
        proof {
            let prev = seq_get(old(self).events@, event_id)->Some_0;
            assert(ev@.attendees =~= prev.attendees);
        }
        self.do_insert_event(&ev);
        Ok(result)
    }

    /// Removes the event stored under `event_id`; the caller must
    /// authenticate as `Admin`, and an identifier must be supplied.
    pub fn delete_event(&mut self, payload: UserPayload1, event_id: Option<u64>) -> (r: Result<
        Event,
        Error,
    >)
        requires
            old(self).wf(),
        ensures
            final(self).wf(),
            final(self).tickets == old(self).tickets,
            final(self).users == old(self).users,
            final(self).entity_alloc == old(self).entity_alloc,
            final(self).user_alloc == old(self).user_alloc,
            ({
                let auth = spec_authenticate(
                    old(self).users@,
                    payload.username@,
                    sha256_hex_of(payload.password@),
                    true,
                );
                if auth is Err {
                    auth matches Err(e) && r == Err::<Event, Error>(e) && final(self).events@
                        == old(self).events@
                } else if event_id is None {
                    r == Err::<Event, Error>(Error::InvalidInput) && final(self).events@ == old(
                        self,
                    ).events@
                } else if seq_get(old(self).events@, event_id->0) is None {
                    r == Err::<Event, Error>(Error::NotFound) && final(self).events@ == old(
                        self,
                    ).events@
                } else {
                    &&& r matches Ok(ret) && seq_get(old(self).events@, event_id->0) == Some(ret@)
                    &&& seq_get(final(self).events@, event_id->0) is None
                    &&& forall|k: u64|
                        k != event_id->0 ==> seq_get(final(self).events@, k) == seq_get(
                            old(self).events@,
                            k,
                        )
                    &&& final(self).events@.len() + 1 == old(self).events@.len()
                }
            }),
    {
        if let Err(e) = self.authenticate_admin(payload.username.clone(), payload.password) {
            return Err(e);
        }
        let event_id = match event_id {
            Some(id) => id,
            None => {
                return Err(Error::InvalidInput);
            },
        };
        match self.events.remove(event_id) {
            Some(ev) => {
                proof {
                    let ki = key_index(old(self).events@, event_id);
                    assert(old(self).events@[ki].0 == event_id);
                    assert forall|i2: int|
                        0 <= i2 < self.events@.len() implies (#[trigger] self.events@[i2]).1.id
                        == self.events@[i2].0 && self.events@[i2].0 < self.entity_alloc.next_id by {
                        if i2 < ki {
                            assert(self.events@[i2] == old(self).events@[i2]);
                        } else {
                            assert(self.events@[i2] == old(self).events@[i2 + 1]);
                        }
                    }
                }
                Ok(ev)
            },
            None => Err(Error::NotFound),
        }
    }

    /// The event stored under `event_id`, or `NotFound`.
    pub fn get_event(&self, event_id: u64) -> (r: Result<Event, Error>)
        requires
            self.wf(),
        ensures
            match r {
                Ok(e) => seq_get(self.events@, event_id) == Some(e@),
                Err(e) => e == Error::NotFound && seq_get(self.events@, event_id) is None,
            },
    {
        match self._get_event(&event_id) {
            Some(e) => Ok(e),
            None => Err(Error::NotFound),
        }
    }

    /// The first event, in key order, whose name equals `event_name` up to
    /// case; the name must be non-empty.
    pub fn get_event_by_name(&self, event_name: String) -> (r: Result<Option<Event>, Error>)
        requires
            self.wf(),
        ensures
            event_name@.len() == 0 ==> r == Err::<Option<Event>, Error>(Error::InvalidInput),
            event_name@.len() > 0 && !name_match_present(self.events@, event_name@) ==> r == Err::<
                Option<Event>,
                Error,
            >(Error::NotFound),
            event_name@.len() > 0 && name_match_present(self.events@, event_name@) ==> (r matches Ok(
                Some(ret),
            ) && exists|i: int|
                #[trigger] is_first_name_match(self.events@, event_name@, i) && ret@
                    == self.events@[i].1),
    {
        if event_name.as_str().is_empty() {
            return Err(Error::InvalidInput);
        }
        let q = lowercase(event_name.as_str());
        let n = self.events.len();
        let mut i: usize = 0;
        while i < n
            invariant
                n == self.events@.len(),
                i <= n,
                event_name@.len() > 0,
                q@ == lower_of(event_name@),
                forall|j: int|
                    0 <= j < i ==> lower_of((#[trigger] self.events@[j]).1.event_name) != lower_of(
                        event_name@,
                    ),
            decreases n - i,
        {
            let e = self.events.val_at(i);
            let en = lowercase(e.event_name.as_str());
            if en == q {
                proof {
                    assert(is_first_name_match(self.events@, event_name@, i as int));
                }
                return Ok(Some(e.clone()));
            }
            i = i + 1;
        }
        Err(Error::NotFound)
    }

    /// Every event, in key order; `NotFound` when there are none at all.
    pub fn get_events(&self) -> (r: Result<Vec<Event>, Error>)
        requires
            self.wf(),
        ensures
            ({
                let all = filtered_vals(self.events@, |e: EventV| true);
                if all.len() == 0 {
                    r == Err::<Vec<Event>, Error>(Error::NotFound)
                } else {
                    r matches Ok(v) && views_of_events(v@) == all
                }
            }),
    {
        let n = self.events.len();
        let mut out: Vec<Event> = Vec::new();
        let mut i: usize = 0;
        while i < n
            invariant
                n == self.events@.len(),
                i <= n,
                views_of_events(out@) =~= filtered_vals(
                    self.events@.take(i as int),
                    |e: EventV| true,
                ),
            decreases n - i,
        {
            let e = self.events.val_at(i);
            out.push(e.clone());
            proof {
                assert(self.events@.take(i + 1).drop_last() =~= self.events@.take(i as int));
                assert(views_of_events(out@) =~= filtered_vals(
                    self.events@.take(i + 1),
                    |e: EventV| true,
                ));
            }
            i = i + 1;
        }
        proof {
            assert(self.events@.take(n as int) =~= self.events@);
        }
        if out.is_empty() {
            proof {
                assert(views_of_events(out@).len() == 0);
            }
            Err(Error::NotFound)
        } else {
            proof {
                assert(views_of_events(out@) =~= filtered_vals(self.events@, |e: EventV| true));
            }
            Ok(out)
        }
    }

    /// Every event whose creation timestamp is not later than `now`, in key
    /// order; `NotFound` when there are none.
    pub fn get_upcoming_events(&self, now: u64) -> (r: Result<Vec<Event>, Error>)
        requires
            self.wf(),
        ensures
            ({
                let sel = filtered_vals(self.events@, |e: EventV| e.timestamp <= now);
                if sel.len() == 0 {
                    r == Err::<Vec<Event>, Error>(Error::NotFound)
                } else {
                    r matches Ok(v) && views_of_events(v@) == sel
                }
            }),
    {
        let n = self.events.len();
        let mut out: Vec<Event> = Vec::new();
        let mut i: usize = 0;
        while i < n
            invariant
                n == self.events@.len(),
                i <= n,
                views_of_events(out@) =~= filtered_vals(
                    self.events@.take(i as int),
                    |e: EventV| e.timestamp <= now,
                ),
            decreases n - i,
        {
            let e = self.events.val_at(i);
            if e.timestamp <= now {
                out.push(e.clone());
            }
            proof {
                assert(self.events@.take(i + 1).drop_last() =~= self.events@.take(i as int));
                assert(views_of_events(out@) =~= filtered_vals(
                    self.events@.take(i + 1),
                    |e: EventV| e.timestamp <= now,
                ));
            }
            i = i + 1;
        }
        proof {
            assert(self.events@.take(n as int) =~= self.events@);
        }
        if out.is_empty() {
            Err(Error::NotFound)
        } else {
            Ok(out)
        }
    }

    /// Every event whose creation timestamp is later than `now`, in key
    /// order; `NotFound` when there are none.
    pub fn get_past_events(&self, now: u64) -> (r: Result<Vec<Event>, Error>)
        requires
            self.wf(),
        ensures
            ({
                let sel = filtered_vals(self.events@, |e: EventV| e.timestamp > now);
                if sel.len() == 0 {
                    r == Err::<Vec<Event>, Error>(Error::NotFound)
                } else {
                    r matches Ok(v) && views_of_events(v@) == sel
                }
            }),
    {
        let n = self.events.len();
        let mut out: Vec<Event> = Vec::new();
        let mut i: usize = 0;
        while i < n
            invariant
                n == self.events@.len(),
                i <= n,
                views_of_events(out@) =~= filtered_vals(
                    self.events@.take(i as int),
                    |e: EventV| e.timestamp > now,
                ),
            decreases n - i,
        {
            let e = self.events.val_at(i);
            if e.timestamp > now {
                out.push(e.clone());
            }
            proof {
                assert(self.events@.take(i + 1).drop_last() =~= self.events@.take(i as int));
                assert(views_of_events(out@) =~= filtered_vals(
                    self.events@.take(i + 1),
                    |e: EventV| e.timestamp > now,
                ));
            }
            i = i + 1;
        }
        proof {
            assert(self.events@.take(n as int) =~= self.events@);
        }
        if out.is_empty() {
            Err(Error::NotFound)
        } else {
            Ok(out)
        }
    }

    /// Appends one attendee name to the event stored under `event_id`. The
    /// caller's credentials must authenticate; credentials and name are
    /// required. The list is append-only: there is no removal path.
    pub fn add_attendees(
        &mut self,
        payload: UserPayload1,
        event_id: u64,
        attendee_payload: AttendeePayload,
    ) -> (r: Result<(), Error>)
        requires
            old(self).wf(),
        ensures
            final(self).wf(),
            final(self).tickets == old(self).tickets,
            final(self).users == old(self).users,
            final(self).entity_alloc == old(self).entity_alloc,
            final(self).user_alloc == old(self).user_alloc,
            ({
                let auth = spec_authenticate(
                    old(self).users@,
                    payload.username@,
                    sha256_hex_of(payload.password@),
                    false,
                );
                if auth is Err {
                    auth matches Err(e) && r == Err::<(), Error>(e) && final(self).events@ == old(
                        self,
                    ).events@
                } else if payload.username@.len() == 0 || payload.password@.len() == 0
                    || attendee_payload.attendee_name@.len() == 0 {
                    r == Err::<(), Error>(Error::InvalidInput) && final(self).events@ == old(
                        self,
                    ).events@
                } else if seq_get(old(self).events@, event_id) is None {
                    r == Err::<(), Error>(Error::NotFound) && final(self).events@ == old(
                        self,
                    ).events@
                } else {
                    seq_get(old(self).events@, event_id) matches Some(prev) && (r is Ok && seq_get(
                        final(self).events@,
                        event_id,
                    ) == Some(with_attendee(prev, attendee_payload.attendee_name@)) && forall|
                        k: u64,
                    |
                        k != event_id ==> seq_get(final(self).events@, k) == seq_get(
                            old(self).events@,
                            k,
                        ))
                }
            }),
    {
        if let Err(e) = self.authenticate_user(payload.username.clone(), payload.password.clone()) {
            return Err(e);
        }
        if payload.username.as_str().is_empty() || payload.password.as_str().is_empty()
            || attendee_payload.attendee_name.as_str().is_empty() {
            return Err(Error::InvalidInput);
        }
        let mut cloned_event = match self.events.get(event_id) {
            Some(e) => e.clone(),
            None => {
                return Err(Error::NotFound);
            },
        };
        proof {
            let ki = key_index(old(self).events@, event_id);
            assert(old(self).events@[ki].0 == event_id);
        }
        cloned_event.attendees.push(
            Attendee { attendee_name: attendee_payload.attendee_name },
        );
        proof {
            let prev = seq_get(old(self).events@, event_id)->Some_0;
            assert(cloned_event@.attendees =~= prev.attendees.push(
                attendee_payload.attendee_name@,
            ));
        }
        self.do_insert_event(&cloned_event);
        Ok(())
    }

    /// The attendee list of the event stored under `event_id`, in insertion
    /// order, or `NotFound`.
    pub fn get_attendees(&self, event_id: u64) -> (r: Result<Vec<Attendee>, Error>)
        requires
            self.wf(),
        ensures
            match r {
                Ok(v) => seq_get(self.events@, event_id) matches Some(prev) && Seq::new(
                    v@.len(),
                    |i: int| v@[i]@,
                ) == prev.attendees,
                Err(e) => e == Error::NotFound && seq_get(self.events@, event_id) is None,
            },
    {
        match self.events.get(event_id) {
            Some(e) => {
                let v = clone_attendees(&e.attendees);
                proof {
                    let prev = seq_get(self.events@, event_id)->Some_0;
                    assert(Seq::new(v@.len(), |i: int| v@[i]@) =~= prev.attendees);
                }
                Ok(v)
            },
            None => Err(Error::NotFound),
        }
    }
}

} // verus!
