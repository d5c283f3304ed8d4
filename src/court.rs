use vstd::prelude::*;
use crate::interval::spans_overlap;
use crate::event::{first_index, lemma_first_index_step, lemma_first_index_end, pairwise, lemma_pairwise_push};

verus! {

/// Failures of the court subsystem.
#[derive(Clone, Debug, PartialEq, Eq)]
pub enum Error {
    UnknownDatabaseError(String),
    CourtNotFound,
    CourtNameExists,
    CourtUnavailable,
    InvalidReservationTime,
    ReservationPurposeMissing,
    ReservationNotFound,
    ReservationPurposeConflict,
    ReservationExists,
}

/// The kind of event that a reservation serves.
#[derive(Clone, Copy, Debug, PartialEq, Eq, Structural)]
pub enum EventKind {
    Training,
    Tournament,
}

/// A court.
#[derive(Debug)]
pub struct Court {
    pub id_court: u128,
    pub court_name: String,
}

/// An exclusive claim on a court for `[start, end)`, linked to one event.
#[derive(Clone, Copy, Debug, PartialEq, Eq, Structural)]
pub struct CourtReservation {
    pub id_court_reservation: u128,
    pub id_court: u128,
    pub start_reservation_datetime: i64,
    pub end_reservation_datetime: i64,
    pub id_training: Option<u128>,
    pub id_tournament: Option<u128>,
}

/// A request for a reservation, before it has an identity.
#[derive(Clone, Copy, Debug, PartialEq, Eq, Structural)]
pub struct CourtReservationCreation {
    pub id_court: u128,
    pub start_reservation_datetime: i64,
    pub end_reservation_datetime: i64,
    pub id_training: Option<u128>,
    pub id_tournament: Option<u128>,
}

impl CourtReservationCreation {
    pub open spec fn with_id(self, id: u128) -> CourtReservation {
        CourtReservation {
            id_court_reservation: id,
            id_court: self.id_court,
            start_reservation_datetime: self.start_reservation_datetime,
            end_reservation_datetime: self.end_reservation_datetime,
            id_training: self.id_training,
            id_tournament: self.id_tournament,
        }
    }

    /// The reservation that this request becomes under the identity `id`.
    pub fn to_court_reservation(&self, id: u128) -> (r: CourtReservation)
        ensures
            r == self.with_id(id),
    {
        CourtReservation {
            id_court_reservation: id,
            id_court: self.id_court,
            start_reservation_datetime: self.start_reservation_datetime,
            end_reservation_datetime: self.end_reservation_datetime,
            id_training: self.id_training,
            id_tournament: self.id_tournament,
        }
    }
}

/// The shape check of a request: exactly one of training and tournament is named.
pub open spec fn linkage_error(training: Option<u128>, tournament: Option<u128>) -> Option<Error> {
    match (training, tournament) {
        (Some(_), Some(_)) => Some(Error::ReservationPurposeConflict),
        (None, None) => Some(Error::ReservationPurposeMissing),
        _ => None,
    }
}

/// Checks that exactly one of `id_training` and `id_tournament` is set.
pub fn validate_reservation_linkage(req: &CourtReservationCreation) -> (r: Result<(), Error>)
    ensures
        match linkage_error(req.id_training, req.id_tournament) {
            Some(e) => r == Err::<(), Error>(e),
            None => r is Ok,
        },
{
    match (req.id_training, req.id_tournament) {
        (Some(_), Some(_)) => Err(Error::ReservationPurposeConflict),
        (None, None) => Err(Error::ReservationPurposeMissing),
        _ => Ok(()),
    }
}

/// `r` is a reservation of `court` that overlaps `[start, end)` and is not `exclude`.
pub open spec fn blocks(r: CourtReservation, court: u128, start: i64, end: i64, exclude: Option<u128>) -> bool {
    &&& r.id_court == court
    &&& exclude != Some(r.id_court_reservation)
    &&& spans_overlap(start as int, end as int, r.start_reservation_datetime as int, r.end_reservation_datetime as int)
}

/// `r` is linked to the event `id` of kind `kind`.
pub open spec fn linked_to(r: CourtReservation, kind: EventKind, id: u128) -> bool {
    match kind {
        EventKind::Training => r.id_training == Some(id),
        EventKind::Tournament => r.id_tournament == Some(id),
    }
}

/// The reservations of `s` that are not linked to the event `id` of kind `kind`, in order.
pub open spec fn unlinked(s: Seq<CourtReservation>, kind: EventKind, id: u128) -> Seq<CourtReservation>
    decreases s.len(),
{
    if s.len() == 0 {
        s
    } else {
        let rest = unlinked(s.drop_last(), kind, id);
        if linked_to(s.last(), kind, id) { rest } else { rest.push(s.last()) }
    }
}

pub proof fn lemma_unlinked_members(s: Seq<CourtReservation>, kind: EventKind, id: u128)
    ensures
        forall|j: int| 0 <= j < unlinked(s, kind, id).len() ==>
            !linked_to(#[trigger] unlinked(s, kind, id)[j], kind, id) && s.contains(unlinked(s, kind, id)[j]),
        forall|j: int| 0 <= j < s.len() && !linked_to(#[trigger] s[j], kind, id) ==>
            unlinked(s, kind, id).contains(s[j]),
    decreases s.len(),
{
    if s.len() > 0 {
        let d = s.drop_last();
        lemma_unlinked_members(d, kind, id);
        assert forall|j: int| 0 <= j < d.len() implies d[j] == s[j] by {}
        let u = unlinked(s, kind, id);
        let ud = unlinked(d, kind, id);
        assert forall|j: int| 0 <= j < u.len() implies !linked_to(#[trigger] u[j], kind, id) && s.contains(u[j]) by {
            if j < ud.len() {
                assert(u[j] == ud[j]);
                let k = choose|k: int| 0 <= k < d.len() && d[k] == ud[j];
                assert(s[k] == u[j]);
            } else {
                assert(s[s.len() - 1] == u[j]);
            }
        }
        assert forall|j: int| 0 <= j < s.len() && !linked_to(#[trigger] s[j], kind, id) implies u.contains(s[j]) by {
            if j < d.len() {
                assert(d[j] == s[j]);
                let k = choose|k: int| 0 <= k < ud.len() && ud[k] == d[j];
                assert(u[k] == s[j]);
            } else {
                assert(u[u.len() - 1] == s[j]);
            }
        }
    }
}

/// The courts and their reservations.
pub struct CourtBook {
    pub courts: Vec<Court>,
    pub reservations: Vec<CourtReservation>,
}

/// Some court of `courts` has identity `id`.
pub open spec fn court_in(courts: Seq<Court>, id: u128) -> bool {
    exists|i: int| 0 <= i < courts.len() && #[trigger] courts[i].id_court == id
}

/// Some reservation of `res` on `court`, other than `exclude`, overlaps `[start, end)`.
pub open spec fn occupied_in(res: Seq<CourtReservation>, court: u128, start: i64, end: i64, exclude: Option<u128>) -> bool {
    exists|i: int| 0 <= i < res.len() && blocks(#[trigger] res[i], court, start, end, exclude)
}

/// Some reservation of `res` is linked to the event `id` of kind `kind`.
pub open spec fn reserved_in(res: Seq<CourtReservation>, kind: EventKind, id: u128) -> bool {
    exists|i: int| 0 <= i < res.len() && linked_to(#[trigger] res[i], kind, id)
}

/// The outcome of a reservation request against the courts `courts` and the reservations
/// `res`: the time check, the shape check, the court's existence, the event's own earlier
/// reservation and the court's availability, in that order.
pub open spec fn outcome_in(courts: Seq<Court>, res: Seq<CourtReservation>, req: CourtReservationCreation) -> Result<(), Error> {
    if req.start_reservation_datetime >= req.end_reservation_datetime {
        Err(Error::InvalidReservationTime)
    } else if linkage_error(req.id_training, req.id_tournament) is Some {
        Err(linkage_error(req.id_training, req.id_tournament).unwrap())
    } else if !court_in(courts, req.id_court) {
        Err(Error::CourtNotFound)
    } else if (req.id_training matches Some(t) && reserved_in(res, EventKind::Training, t))
        || (req.id_tournament matches Some(t) && reserved_in(res, EventKind::Tournament, t)) {
        Err(Error::CourtUnavailable)
    } else if occupied_in(res, req.id_court, req.start_reservation_datetime, req.end_reservation_datetime, None) {
        Err(Error::CourtUnavailable)
    } else {
        Ok(())
    }
}

pub open spec fn is_linked(kind: EventKind, id: u128) -> spec_fn(CourtReservation) -> bool {
    |r: CourtReservation| linked_to(r, kind, id)
}

/// The index of the first reservation of `res` linked to the event `id` of kind `kind`.
pub open spec fn first_linked(res: Seq<CourtReservation>, kind: EventKind, id: u128) -> Option<int> {
    first_index(res, is_linked(kind, id))
}

/// The request that links `court` to the event `id` of kind `kind` over `[start, end)`.
pub open spec fn booking(kind: EventKind, court: u128, id: u128, start: i64, end: i64) -> CourtReservationCreation {
    CourtReservationCreation {
        id_court: court,
        start_reservation_datetime: start,
        end_reservation_datetime: end,
        id_training: if kind == EventKind::Training { Some(id) } else { None },
        id_tournament: if kind == EventKind::Tournament { Some(id) } else { None },
    }
}

/// The event's current reservation already is the one asked for: on `court`, over `[start, end)`.
pub open spec fn keeps_booking(res: Seq<CourtReservation>, kind: EventKind, id: u128, court: Option<u128>, start: i64, end: i64) -> bool {
    match first_linked(res, kind, id) {
        Some(k) => court == Some(res[k].id_court) && res[k].start_reservation_datetime == start
            && res[k].end_reservation_datetime == end,
        None => false,
    }
}

/// The reservations left once an event that moves to `court` and `[start, end)` has let go
/// of a reservation that no longer matches.
pub open spec fn released(res: Seq<CourtReservation>, kind: EventKind, id: u128, court: Option<u128>, start: i64, end: i64) -> Seq<CourtReservation> {
    if first_linked(res, kind, id) is None || keeps_booking(res, kind, id, court, start, end) {
        res
    } else {
        unlinked(res, kind, id)
    }
}

/// What rescheduling the event `id` to `court` and `[start, end)` does to the reservations:
/// the result of the court step and the reservations after it. A matching reservation is
/// kept; otherwise the old one is released and, when a court is named, a new one is asked
/// for under `rid`. A refused request puts the released reservation back, so a failed step
/// leaves the reservations as they were.
pub open spec fn rebooking(
    courts: Seq<Court>,
    res: Seq<CourtReservation>,
    kind: EventKind,
    id: u128,
    court: Option<u128>,
    start: i64,
    end: i64,
    rid: u128,
) -> (Result<(), Error>, Seq<CourtReservation>) {
    let rel = released(res, kind, id, court, start, end);
    match court {
        None => (Ok(()), rel),
        Some(c) => if keeps_booking(res, kind, id, court, start, end) {
            (Ok(()), res)
        } else {
            match outcome_in(courts, rel, booking(kind, c, id, start, end)) {
                Ok(()) => (Ok(()), rel.push(booking(kind, c, id, start, end).with_id(rid))),
                Err(e) => (Err(e), res),
            }
        },
    }
}

/// Two reservations serve different events.
pub open spec fn separate_events() -> spec_fn(CourtReservation, CourtReservation) -> bool {
    |a: CourtReservation, b: CourtReservation|
        !(a.id_training is Some && a.id_training == b.id_training)
            && !(a.id_tournament is Some && a.id_tournament == b.id_tournament)
}

/// Every reservation of `res` names a court of `courts`.
pub open spec fn on_courts(courts: Seq<Court>, res: Seq<CourtReservation>) -> bool {
    forall|i: int| 0 <= i < res.len() ==> court_in(courts, #[trigger] res[i].id_court)
}

pub proof fn lemma_unlinked_keeps_wf(courts: Seq<Court>, s: Seq<CourtReservation>, kind: EventKind, id: u128)
    requires
        on_courts(courts, s),
        pairwise(s, separate_events()),
    ensures
        on_courts(courts, unlinked(s, kind, id)),
        pairwise(unlinked(s, kind, id), separate_events()),
    decreases s.len(),
{
    if s.len() > 0 {
        let d = s.drop_last();
        assert forall|j: int| 0 <= j < d.len() implies d[j] == s[j] by {}
        assert(on_courts(courts, d));
        assert(pairwise(d, separate_events())) by {
            assert forall|a: int, b: int| 0 <= a < b < d.len() implies #[trigger] separate_events()(d[a], d[b]) by {
                assert(separate_events()(s[a], s[b]));
            }
        }
        lemma_unlinked_keeps_wf(courts, d, kind, id);
        lemma_unlinked_members(d, kind, id);
        let rest = unlinked(d, kind, id);
        if !linked_to(s.last(), kind, id) {
            assert(court_in(courts, s[s.len() - 1].id_court));
            assert forall|a: int| 0 <= a < rest.len() implies #[trigger] separate_events()(rest[a], s.last()) by {
                assert(d.contains(rest[a]));
                let k = choose|k: int| 0 <= k < d.len() && d[k] == rest[a];
                assert(separate_events()(s[k], s[s.len() - 1]));
            }
            lemma_pairwise_push(rest, s.last(), separate_events());
            assert(unlinked(s, kind, id) == rest.push(s.last()));
            assert forall|i: int| 0 <= i < rest.push(s.last()).len()
                implies court_in(courts, #[trigger] rest.push(s.last())[i].id_court) by {
                if i < rest.len() {
                    assert(rest.push(s.last())[i] == rest[i]);
                }
            }
        }
    }
}

pub proof fn lemma_without_court_keeps(s: Seq<Court>, id: u128, c: u128)
    requires
        c != id,
        court_in(s, c),
    ensures
        court_in(without_court(s, id), c),
    decreases s.len(),
{
    let d = s.drop_last();
    let i = choose|i: int| 0 <= i < s.len() && #[trigger] s[i].id_court == c;
    if i < s.len() - 1 {
        assert(d[i].id_court == c);
        lemma_without_court_keeps(d, id, c);
        let rest = without_court(d, id);
        let k = choose|k: int| 0 <= k < rest.len() && #[trigger] rest[k].id_court == c;
        if s.last().id_court != id {
            assert(rest.push(s.last())[k].id_court == c);
        }
    } else {
        let rest = without_court(d, id);
        assert(rest.push(s.last())[rest.len() as int].id_court == c);
    }
}

/// A copy of the reservations `v`, element by element.
fn copy_reservations(v: &Vec<CourtReservation>) -> (r: Vec<CourtReservation>)
    ensures
        r@ == v@,
{
    let mut out: Vec<CourtReservation> = Vec::new();
    let mut i: usize = 0;
    while i < v.len()
        invariant
            i <= v@.len(),
            out@ == v@.subrange(0, i as int),
        decreases v@.len() - i,
    {
        out.push(v[i]);
        i = i + 1;
    }
    assert(out@ =~= v@);
    out
}

/// The courts of `s`, in order, but those with identity `id`.
pub open spec fn without_court(s: Seq<Court>, id: u128) -> Seq<Court>
    decreases s.len(),
{
    if s.len() == 0 {
        s
    } else {
        let rest = without_court(s.drop_last(), id);
        if s.last().id_court == id { rest } else { rest.push(s.last()) }
    }
}

impl CourtBook {
    /// Every reservation names a stored court, and no two reservations serve one event.
    pub open spec fn wf(self) -> bool {
        on_courts(self.courts@, self.reservations@) && pairwise(self.reservations@, separate_events())
    }

    pub open spec fn has_court(self, id: u128) -> bool {
        court_in(self.courts@, id)
    }

    /// Some reservation of `court` other than `exclude` overlaps `[start, end)`.
    pub open spec fn occupied(self, court: u128, start: i64, end: i64, exclude: Option<u128>) -> bool {
        occupied_in(self.reservations@, court, start, end, exclude)
    }

    /// Some reservation is linked to the event `id` of kind `kind`.
    pub open spec fn event_reserved(self, kind: EventKind, id: u128) -> bool {
        reserved_in(self.reservations@, kind, id)
    }

    /// The outcome of a reservation request; `Ok` means that it is recorded.
    pub open spec fn reservation_outcome(self, req: CourtReservationCreation) -> Result<(), Error> {
        outcome_in(self.courts@, self.reservations@, req)
    }

    pub fn new() -> (r: CourtBook)
        ensures
            r.courts@.len() == 0,
            r.reservations@.len() == 0,
    {
        CourtBook { courts: Vec::new(), reservations: Vec::new() }
    }

    pub open spec fn has_court_named(self, name: Seq<char>) -> bool {
        exists|i: int| 0 <= i < self.courts@.len() && #[trigger] self.courts@[i].court_name@ == name
    }

    /// Some reservation is held on court `id`.
    pub open spec fn court_reserved(self, id: u128) -> bool {
        exists|i: int| 0 <= i < self.reservations@.len() && #[trigger] self.reservations@[i].id_court == id
    }

    /// Adds a court named `name` under the identity `id`; court names are unique.
    pub fn create_court(&mut self, id: u128, name: String) -> (r: Result<(), Error>)
        ensures
            old(self).wf() ==> final(self).wf(),
            r is Err <==> old(self).has_court_named(name@),
            r matches Err(e) ==> e == Error::CourtNameExists,
            r is Ok ==> final(self).courts@ == old(self).courts@.push(Court { id_court: id, court_name: name }),
            r is Err ==> final(self).courts@ == old(self).courts@,
            final(self).reservations@ == old(self).reservations@,
    {
        let mut i: usize = 0;
        while i < self.courts.len()
            invariant
                i <= self.courts@.len(),
                forall|j: int| 0 <= j < i ==> #[trigger] self.courts@[j].court_name@ != name@,
            decreases self.courts@.len() - i,
        {
            if self.courts[i].court_name == name {
                return Err(Error::CourtNameExists);
            }
            i = i + 1;
        }
        self.courts.push(Court { id_court: id, court_name: name });
        proof {
            assert forall|c: u128| court_in(old(self).courts@, c) implies court_in(self.courts@, c) by {
                let k = choose|k: int| 0 <= k < old(self).courts@.len() && #[trigger] old(self).courts@[k].id_court == c;
                assert(self.courts@[k].id_court == c);
            }
        }
        Ok(())
    }

    /// Removes court `id`, which must exist and hold no reservation.
    pub fn delete_court(&mut self, id: u128) -> (r: Result<(), Error>)
        ensures
            old(self).wf() ==> final(self).wf(),
            !old(self).has_court(id) ==> r == Err::<(), Error>(Error::CourtNotFound),
            old(self).has_court(id) && old(self).court_reserved(id) ==> r == Err::<(), Error>(Error::ReservationExists),
            r is Err ==> final(self).courts@ == old(self).courts@,
            old(self).has_court(id) && !old(self).court_reserved(id) ==> r is Ok
                && final(self).courts@ == without_court(old(self).courts@, id),
            final(self).reservations@ == old(self).reservations@,
    {
        let mut k: usize = 0;
        while k < self.reservations.len()
            invariant
                k <= self.reservations@.len(),
                forall|j: int| 0 <= j < k ==> #[trigger] self.reservations@[j].id_court != id,
            decreases self.reservations@.len() - k,
        {
            if self.reservations[k].id_court == id {
                if !self.court_exists(id) {
                    return Err(Error::CourtNotFound);
                }
                return Err(Error::ReservationExists);
            }
            k = k + 1;
        }
        if !self.court_exists(id) {
            return Err(Error::CourtNotFound);
        }
        let mut kept: Vec<Court> = Vec::new();
        let mut i: usize = 0;
        while i < self.courts.len()
            invariant
                i <= self.courts@.len(),
                kept@ == without_court(self.courts@.subrange(0, i as int), id),
            decreases self.courts@.len() - i,
        {
            let ghost s = self.courts@;
            assert(s.subrange(0, i + 1).drop_last() =~= s.subrange(0, i as int));
            if self.courts[i].id_court != id {
                let c = Court { id_court: self.courts[i].id_court, court_name: self.courts[i].court_name.clone() };
                kept.push(c);
            }
            i = i + 1;
        }
        assert(self.courts@.subrange(0, i as int) =~= self.courts@);
        proof {
            assert forall|j: int| 0 <= j < self.reservations@.len()
                implies old(self).wf() ==> court_in(kept@, #[trigger] self.reservations@[j].id_court) by {
                if old(self).wf() {
                    assert(self.reservations@[j].id_court != id);
                    lemma_without_court_keeps(self.courts@, id, self.reservations@[j].id_court);
                }
            }
        }
        self.courts = kept;
        Ok(())
    }

    /// Whether a court with identity `id` exists.
    pub fn court_exists(&self, id: u128) -> (r: bool)
        ensures
            r == self.has_court(id),
    {
        let mut i: usize = 0;
        while i < self.courts.len()
            invariant
                i <= self.courts@.len(),
                forall|j: int| 0 <= j < i ==> #[trigger] self.courts@[j].id_court != id,
            decreases self.courts@.len() - i,
        {
            if self.courts[i].id_court == id {
                return true;
            }
            i = i + 1;
        }
        false
    }

    /// Whether no reservation of `court`, other than `exclude`, overlaps `[start, end)`.
    pub fn is_court_available(&self, court: u128, start: i64, end: i64, exclude: Option<u128>) -> (r: bool)
        ensures
            r == !self.occupied(court, start, end, exclude),
    {
        let mut i: usize = 0;
        while i < self.reservations.len()
            invariant
                i <= self.reservations@.len(),
                forall|j: int| 0 <= j < i ==> !blocks(#[trigger] self.reservations@[j], court, start, end, exclude),
            decreases self.reservations@.len() - i,
        {
            let r = &self.reservations[i];
            let excluded = match exclude {
                Some(x) => x == r.id_court_reservation,
                None => false,
            };
            if r.id_court == court && !excluded && start < r.end_reservation_datetime
                && r.start_reservation_datetime < end {
                return false;
            }
            i = i + 1;
        }
        true
    }

    /// The reservation linked to the event `id` of kind `kind`, if any.
    pub fn get_reservation_for_event(&self, kind: EventKind, id: u128) -> (r: Option<CourtReservation>)
        ensures
            r is None <==> !self.event_reserved(kind, id),
            r is None <==> first_linked(self.reservations@, kind, id) is None,
            r matches Some(x) ==> self.reservations@.contains(x) && linked_to(x, kind, id),
            r matches Some(x) ==> x == self.reservations@[first_linked(self.reservations@, kind, id).unwrap()],
    {
        let mut i: usize = 0;
        while i < self.reservations.len()
            invariant
                i <= self.reservations@.len(),
                forall|j: int| 0 <= j < i ==> !linked_to(#[trigger] self.reservations@[j], kind, id),
                first_index(self.reservations@.subrange(0, i as int), is_linked(kind, id)) is None,
            decreases self.reservations@.len() - i,
        {
            proof { lemma_first_index_step(self.reservations@, is_linked(kind, id), i as int); }
            let r = self.reservations[i];
            let hit = match kind {
                EventKind::Training => r.id_training == Some(id),
                EventKind::Tournament => r.id_tournament == Some(id),
            };
            if hit {
                return Some(r);
            }
            i = i + 1;
        }
        proof { lemma_first_index_end(self.reservations@, is_linked(kind, id)); }
        None
    }

    /// Records a reservation for `req` under the identity `new_id`, after the time check,
    /// the shape check, the court's existence, the event's own earlier reservation and the
    /// court's availability, in that order.
    pub fn create_reservation(&mut self, req: CourtReservationCreation, new_id: u128)
        -> (r: Result<CourtReservation, Error>)
        ensures
            old(self).wf() ==> final(self).wf(),
            match old(self).reservation_outcome(req) {
                Ok(()) => r == Ok::<CourtReservation, Error>(req.with_id(new_id))
                    && final(self).reservations@ == old(self).reservations@.push(req.with_id(new_id)),
                Err(e) => r == Err::<CourtReservation, Error>(e)
                    && final(self).reservations@ == old(self).reservations@,
            },
            final(self).courts@ == old(self).courts@,
    {
        if req.start_reservation_datetime >= req.end_reservation_datetime {
            return Err(Error::InvalidReservationTime);
        }
        let shape = validate_reservation_linkage(&req);
        if let Err(e) = shape {
            return Err(e);
        }
        if !self.court_exists(req.id_court) {
            return Err(Error::CourtNotFound);
        }
        match req.id_training {
            Some(t) => {
                if self.get_reservation_for_event(EventKind::Training, t).is_some() {
                    return Err(Error::CourtUnavailable);
                }
            },
            None => {},
        }
        match req.id_tournament {
            Some(t) => {
                if self.get_reservation_for_event(EventKind::Tournament, t).is_some() {
                    return Err(Error::CourtUnavailable);
                }
            },
            None => {},
        }
        if !self.is_court_available(req.id_court, req.start_reservation_datetime, req.end_reservation_datetime, None) {
            return Err(Error::CourtUnavailable);
        }
        let reservation = req.to_court_reservation(new_id);
        proof {
            if old(self).wf() {
                assert forall|a: int| 0 <= a < self.reservations@.len()
                    implies #[trigger] separate_events()(self.reservations@[a], reservation) by {
                    let x = self.reservations@[a];
                    if x.id_training is Some && x.id_training == reservation.id_training {
                        assert(linked_to(x, EventKind::Training, reservation.id_training.unwrap()));
                    }
                    if x.id_tournament is Some && x.id_tournament == reservation.id_tournament {
                        assert(linked_to(x, EventKind::Tournament, reservation.id_tournament.unwrap()));
                    }
                }
                lemma_pairwise_push(self.reservations@, reservation, separate_events());
            }
        }
        self.reservations.push(reservation);
        proof {
            assert forall|i: int| 0 <= i < self.reservations@.len()
                implies old(self).wf() ==> court_in(self.courts@, #[trigger] self.reservations@[i].id_court) by {
                if i < old(self).reservations@.len() {
                    assert(self.reservations@[i] == old(self).reservations@[i]);
                }
            }
        }
        Ok(reservation)
    }

    /// Moves the reservation of the event `id` of kind `kind` to `court` and `[start, end)`:
    /// a reservation that already matches is kept; otherwise the event's reservations are
    /// released first and, when a court is named, a new one is made under `rid`. When that
    /// new reservation is refused, the released ones are restored.
    pub fn rebook(&mut self, kind: EventKind, id: u128, court: Option<u128>, start: i64, end: i64, rid: u128)
        -> (r: Result<(), Error>)
        ensures
            old(self).wf() ==> final(self).wf(),
            r == rebooking(old(self).courts@, old(self).reservations@, kind, id, court, start, end, rid).0,
            final(self).reservations@ == rebooking(old(self).courts@, old(self).reservations@, kind, id, court, start, end, rid).1,
            final(self).courts@ == old(self).courts@,
    {
        let mut keep = false;
        let saved = copy_reservations(&self.reservations);
        if let Some(existing) = self.get_reservation_for_event(kind, id) {
            let same = match court {
                Some(c) => existing.id_court == c && existing.start_reservation_datetime == start
                    && existing.end_reservation_datetime == end,
                None => false,
            };
            if same {
                keep = true;
            } else {
                self.delete_reservation_for_event(kind, id);
            }
        }
        proof {
            assert(keep == keeps_booking(old(self).reservations@, kind, id, court, start, end));
            assert(self.reservations@ == released(old(self).reservations@, kind, id, court, start, end));
        }
        match court {
            None => Ok(()),
            Some(c) => {
                if keep {
                    return Ok(());
                }
                let req = CourtReservationCreation {
                    id_court: c,
                    start_reservation_datetime: start,
                    end_reservation_datetime: end,
                    id_training: match kind {
                        EventKind::Training => Some(id),
                        EventKind::Tournament => None,
                    },
                    id_tournament: match kind {
                        EventKind::Training => None,
                        EventKind::Tournament => Some(id),
                    },
                };
                assert(req == booking(kind, c, id, start, end));
                match self.create_reservation(req, rid) {
                    Ok(_) => Ok(()),
                    Err(e) => {
                        self.reservations = saved;
                        Err(e)
                    },
                }
            },
        }
    }

    /// Releases every reservation linked to the event `id` of kind `kind`.
    pub fn delete_reservation_for_event(&mut self, kind: EventKind, id: u128)
        ensures
            old(self).wf() ==> final(self).wf(),
            final(self).reservations@ == unlinked(old(self).reservations@, kind, id),
            final(self).courts@ == old(self).courts@,
    {
        let mut kept: Vec<CourtReservation> = Vec::new();
        let mut i: usize = 0;
        while i < self.reservations.len()
            invariant
                i <= self.reservations@.len(),
                kept@ == unlinked(self.reservations@.subrange(0, i as int), kind, id),
            decreases self.reservations@.len() - i,
        {
            let ghost s = self.reservations@;
            assert(s.subrange(0, i + 1).drop_last() =~= s.subrange(0, i as int));
            let r = self.reservations[i];
            let hit = match kind {
                EventKind::Training => r.id_training == Some(id),
                EventKind::Tournament => r.id_tournament == Some(id),
            };
            if !hit {
                kept.push(r);
            }
            i = i + 1;
        }
        assert(self.reservations@.subrange(0, i as int) =~= self.reservations@);
        proof {
            if old(self).wf() {
                lemma_unlinked_keeps_wf(self.courts@, self.reservations@, kind, id);
            }
        }
        self.reservations = kept;
    }
}

} // verus!

verus! {

/// A request whose window is empty or inverted fails with `InvalidReservationTime`,
/// whatever events it names and whatever the book holds.
pub proof fn lemma_bad_window_decides_first(book: CourtBook, req: CourtReservationCreation)
    requires
        req.start_reservation_datetime >= req.end_reservation_datetime,
    ensures
        book.reservation_outcome(req) == Err::<(), Error>(Error::InvalidReservationTime),
{
}

/// A reservation that ends exactly when a requested window starts does not block it.
pub proof fn lemma_touching_reservation_does_not_block(r: CourtReservation, court: u128, start: i64, end: i64, exclude: Option<u128>)
    requires
        r.end_reservation_datetime == start,
    ensures
        !blocks(r, court, start, end, exclude),
{
}

/// A well-timed request that names neither a training nor a tournament fails with
/// `ReservationPurposeMissing`, and one that names both with `ReservationPurposeConflict`,
/// whatever court it names and whatever the book holds.
pub proof fn lemma_linkage_decides_first(book: CourtBook, req: CourtReservationCreation)
    requires
        req.start_reservation_datetime < req.end_reservation_datetime,
    ensures
        req.id_training is None && req.id_tournament is None
            ==> book.reservation_outcome(req) == Err::<(), Error>(Error::ReservationPurposeMissing),
        req.id_training is Some && req.id_tournament is Some
            ==> book.reservation_outcome(req) == Err::<(), Error>(Error::ReservationPurposeConflict),
{
}

} // verus!

verus! {

/// Moving an event to an existing court over a non-empty window succeeds when nothing on
/// that court overlaps the window but the event's own reservations: those are released
/// before the new one is asked for.
pub proof fn lemma_free_court_rebooking(
    courts: Seq<Court>,
    res: Seq<CourtReservation>,
    kind: EventKind,
    id: u128,
    c: u128,
    start: i64,
    end: i64,
    rid: u128,
)
    requires
        start < end,
        court_in(courts, c),
        forall|i: int| 0 <= i < res.len() && blocks(#[trigger] res[i], c, start, end, None) ==> linked_to(res[i], kind, id),
    ensures
        rebooking(courts, res, kind, id, Some(c), start, end, rid).0 is Ok,
{
    let rel = released(res, kind, id, Some(c), start, end);
    if !keeps_booking(res, kind, id, Some(c), start, end) {
        lemma_unlinked_members(res, kind, id);
        crate::event::lemma_first_index_bounds(res, is_linked(kind, id));
        assert forall|j: int| 0 <= j < rel.len() implies !linked_to(#[trigger] rel[j], kind, id) by {
            if first_linked(res, kind, id) is None {
                assert(!is_linked(kind, id)(res[j]));
            }
        }
        assert forall|j: int| 0 <= j < rel.len() implies !blocks(#[trigger] rel[j], c, start, end, None) by {
            assert(!linked_to(rel[j], kind, id));
            if first_linked(res, kind, id) is Some {
                assert(res.contains(rel[j]));
            }
        }
        assert(!reserved_in(rel, kind, id));
        assert(!occupied_in(rel, c, start, end, None));
    }
}

} // verus!
