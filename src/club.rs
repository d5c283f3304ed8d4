use vstd::prelude::*;
use crate::category::{self, CategoryBook, first_category};
use crate::court::{self, CourtBook, CourtReservation, CourtReservationCreation, EventKind, booking, rebooking, unlinked};
use crate::user::Date;
use crate::event::{pairwise, lemma_pairwise_push, lemma_pairwise_remove, lemma_pairwise_update};
use crate::event::{first_index, is_valid_event_window, valid_event_window, lemma_first_index_bounds, lemma_first_index_step, lemma_first_index_end};
use crate::training::{self, Training, TrainingCreation, TrainingRegistration, is_training, is_training_registration, trainer_error};
use crate::user::{URol, UserBook};
use crate::tuition::TuitionBook;
use crate::tournament::{
    Error, Tournament, TournamentCreation, TournamentRegistration, TournamentAttendance,
    TournamentAttendanceRequest, is_tournament, is_registration, is_attendance,
};

verus! {

/// The reservation request that links a court to the tournament `id` over `[start, end)`.
pub open spec fn tournament_booking(court: u128, id: u128, start: i64, end: i64) -> CourtReservationCreation {
    booking(EventKind::Tournament, court, id, start, end)
}

/// The tournaments of `s`, in order, whose category `user` holds in `book`.
pub open spec fn open_tournaments(s: Seq<Tournament>, book: CategoryBook, user: u128) -> Seq<Tournament>
    decreases s.len(),
{
    if s.len() == 0 {
        s
    } else {
        let rest = open_tournaments(s.drop_last(), book, user);
        if book.level_of(user, s.last().id_category) is Some { rest.push(s.last()) } else { rest }
    }
}

/// The trainings of `s`, in order, whose category `user` holds in `book`.
pub open spec fn open_trainings(s: Seq<Training>, book: CategoryBook, user: u128) -> Seq<Training>
    decreases s.len(),
{
    if s.len() == 0 {
        s
    } else {
        let rest = open_trainings(s.drop_last(), book, user);
        if book.level_of(user, s.last().id_category) is Some { rest.push(s.last()) } else { rest }
    }
}

/// The trainings of `s`, in order, led by `trainer`.
pub open spec fn led_by(s: Seq<Training>, trainer: u128) -> Seq<Training>
    decreases s.len(),
{
    if s.len() == 0 {
        s
    } else {
        let rest = led_by(s.drop_last(), trainer);
        if s.last().trainer_id == trainer { rest.push(s.last()) } else { rest }
    }
}

/// Two tournaments have different identities.
pub open spec fn distinct_tournaments() -> spec_fn(Tournament, Tournament) -> bool {
    |a: Tournament, b: Tournament| a.id_tournament != b.id_tournament
}

/// Two trainings have different identities.
pub open spec fn distinct_trainings() -> spec_fn(Training, Training) -> bool {
    |a: Training, b: Training| a.id_training != b.id_training
}

/// Replacing a training by one with the same identity keeps identities distinct.
pub proof fn lemma_same_identity_keeps_trainings_distinct(s: Seq<Training>, k: int, x: Training)
    requires
        pairwise(s, distinct_trainings()),
        0 <= k < s.len(),
        s[k].id_training == x.id_training,
    ensures
        pairwise(s.update(k, x), distinct_trainings()),
{
    assert forall|a: int| 0 <= a < s.len() && a != k
        implies #[trigger] distinct_trainings()(s[a], x) && distinct_trainings()(x, s[a]) by {
        if a < k {
            assert(distinct_trainings()(s[a], s[k]));
        } else {
            assert(distinct_trainings()(s[k], s[a]));
        }
    }
    lemma_pairwise_update(s, k, x, distinct_trainings());
}

/// Two attendances of one tournament are by different users, at different positions.
pub open spec fn distinct_places() -> spec_fn(TournamentAttendance, TournamentAttendance) -> bool {
    |a: TournamentAttendance, b: TournamentAttendance|
        a.id_tournament == b.id_tournament ==> a.id_user != b.id_user && a.position != b.position
}

/// The categories, the users and the tuition payments are the same in `a` and `b`.
pub open spec fn same_people(a: Club, b: Club) -> bool {
    a.categories == b.categories && a.users == b.users && a.tuitions == b.tuitions
}

/// The trainings and their registrations are the same in `a` and `b`.
pub open spec fn same_trainings(a: Club, b: Club) -> bool {
    a.trainings == b.trainings && a.training_registrations == b.training_registrations
}

/// The tournaments, their registrations and their attendance are the same in `a` and `b`.
pub open spec fn same_tournaments(a: Club, b: Club) -> bool {
    a.tournaments == b.tournaments && a.tournament_registrations == b.tournament_registrations
        && a.tournament_attendance == b.tournament_attendance
}

/// The club's stores: categories, courts, tournaments and what users did in them.
pub struct Club {
    pub categories: CategoryBook,
    pub courts: CourtBook,
    pub tournaments: Vec<Tournament>,
    pub tournament_registrations: Vec<TournamentRegistration>,
    pub tournament_attendance: Vec<TournamentAttendance>,
    pub trainings: Vec<Training>,
    pub training_registrations: Vec<TrainingRegistration>,
    pub users: UserBook,
    pub tuitions: TuitionBook,
}

/// The reservation request that links a court to the training `id` over `[start, end)`.
pub open spec fn training_booking(court: u128, id: u128, start: i64, end: i64) -> CourtReservationCreation {
    booking(EventKind::Training, court, id, start, end)
}

impl Club {
    /// The stores agree with each other: identities of events are unique, the court book
    /// is well formed, and within a tournament each user attends once and each position is
    /// held once.
    pub open spec fn wf(self) -> bool {
        &&& self.courts.wf()
        &&& pairwise(self.tournaments@, distinct_tournaments())
        &&& pairwise(self.trainings@, distinct_trainings())
        &&& pairwise(self.tournament_attendance@, distinct_places())
    }

    pub open spec fn tournament_at(self, id: u128) -> Option<int> {
        first_index(self.tournaments@, is_tournament(id))
    }

    pub open spec fn registered(self, t: u128, u: u128) -> bool {
        first_index(self.tournament_registrations@, is_registration(t, u)) is Some
    }

    pub open spec fn attended(self, t: u128, u: u128) -> Option<int> {
        first_index(self.tournament_attendance@, is_attendance(t, u))
    }

    /// Some attendance of tournament `t` by a user other than `except` holds `position`.
    pub open spec fn position_taken(self, t: u128, position: i32, except: Option<u128>) -> bool {
        exists|i: int| 0 <= i < self.tournament_attendance@.len() && {
            let a = #[trigger] self.tournament_attendance@[i];
            a.id_tournament == t && a.position == position && except != Some(a.id_user)
        }
    }

    /// The outcome of creating a tournament from `p` under `id`, with a court when one is named.
    pub open spec fn creation_outcome(self, p: TournamentCreation, court: Option<u128>, id: u128) -> Result<(), Error> {
        if !valid_event_window(p.start_datetime, p.end_datetime) {
            Err(Error::InvalidDates)
        } else if first_category(self.categories.categories@, p.id_category) is None {
            Err(Error::CategoryServiceError(category::Error::CategoryNotFound))
        } else if self.tournament_at(id) is Some {
            Err(Error::TournamentAlreadyExists)
        } else {
            match court {
                Some(c) => match self.courts.reservation_outcome(tournament_booking(c, id, p.start_datetime, p.end_datetime)) {
                    Err(e) => Err(Error::CourtServiceError(e)),
                    Ok(()) => Ok(()),
                },
                None => Ok(()),
            }
        }
    }

    /// What creating a tournament from `p` under `id` returns.
    pub open spec fn creation_result(self, p: TournamentCreation, court: Option<u128>, id: u128) -> Result<Tournament, Error> {
        match self.creation_outcome(p, court, id) {
            Ok(()) => Ok(p.with_id(id)),
            Err(e) => Err(e),
        }
    }

    /// The court step of rescheduling the event `id` of kind `kind` to `court` and `[start, end)`.
    pub open spec fn court_step(self, kind: EventKind, id: u128, court: Option<u128>, start: i64, end: i64, rid: u128)
        -> (Result<(), court::Error>, Seq<CourtReservation>) {
        rebooking(self.courts.courts@, self.courts.reservations@, kind, id, court, start, end, rid)
    }

    /// Why updating tournament `id` from `p` is refused before its court step, if it is.
    pub open spec fn tournament_update_refusal(self, id: u128, p: TournamentCreation) -> Option<Error> {
        match self.tournament_at(id) {
            None => Some(Error::TournamentNotFound),
            Some(i) => if !valid_event_window(p.start_datetime, p.end_datetime) {
                Some(Error::InvalidDates)
            } else if self.tournaments@[i].id_category != p.id_category
                && first_category(self.categories.categories@, p.id_category) is None {
                Some(Error::CategoryServiceError(category::Error::CategoryNotFound))
            } else {
                None
            },
        }
    }

    /// What updating tournament `id` from `p` returns.
    pub open spec fn tournament_update_result(self, id: u128, p: TournamentCreation, court: Option<u128>, rid: u128)
        -> Result<Tournament, Error> {
        match self.tournament_update_refusal(id, p) {
            Some(e) => Err(e),
            None => match self.court_step(EventKind::Tournament, id, court, p.start_datetime, p.end_datetime, rid).0 {
                Ok(()) => Ok(p.with_id(id)),
                Err(e) => Err(Error::CourtServiceError(e)),
            },
        }
    }

    /// The birth date of user `u`, `None` when there is no such user.
    pub open spec fn birth_of(self, u: u128) -> Option<Date> {
        match self.users.user_at(u) {
            Some(i) => Some(self.users.users@[i].birth_date),
            None => None,
        }
    }

    /// What registering `user` for tournament `id` at `now`, as of `today`, returns.
    pub open spec fn tournament_registration_result(self, user: u128, id: u128, now: i64, today: Date)
        -> Result<TournamentRegistration, Error> {
        match self.tournament_at(id) {
            None => Err(Error::TournamentNotFound),
            Some(i) => if now >= self.tournaments@[i].start_datetime {
                Err(Error::InvalidRegistrationDate)
            } else if self.categories.level_of(user, self.tournaments@[i].id_category) is None {
                Err(Error::UserDoesNotMeetCategoryRequirements)
            } else if self.birth_of(user) is None {
                Err(Error::UserServiceError(crate::user::Error::UserIdDontExist))
            } else if self.categories.eligibility(user, self.tournaments@[i].id_category,
                crate::user::age_on(today, self.birth_of(user).unwrap())) is Err {
                Err(Error::CategoryServiceError(self.categories.eligibility(user, self.tournaments@[i].id_category,
                    crate::user::age_on(today, self.birth_of(user).unwrap())).get_Err_0()))
            } else if self.registered(id, user) {
                Err(Error::UserAlreadyRegistered)
            } else {
                Ok(TournamentRegistration { id_tournament: id, id_user: user, registration_datetime: now })
            },
        }
    }

    /// What recording the attendance `req` of tournament `id` at `now` returns.
    pub open spec fn attendance_result(self, req: TournamentAttendanceRequest, id: u128, now: i64)
        -> Result<TournamentAttendance, Error> {
        match self.tournament_at(id) {
            None => Err(Error::TournamentNotFound),
            Some(i) => if !(self.tournaments@[i].start_datetime <= now && now < self.tournaments@[i].end_datetime) {
                Err(Error::InvalidAssistanceDate)
            } else if !self.registered(id, req.id_user) {
                Err(Error::UserNotRegistered)
            } else if self.attended(id, req.id_user) is Some {
                Err(Error::AttendanceAlreadyRecorded)
            } else if req.position <= 0 {
                Err(Error::NegativePosition)
            } else if self.position_taken(id, req.position, None) {
                Err(Error::PositionAlreadyTaken)
            } else {
                Ok(TournamentAttendance { id_tournament: id, id_user: req.id_user, attendance_datetime: now, position: req.position })
            },
        }
    }

    /// What checking whether `user` may join `cat` as of `today` returns: the category is
    /// looked up first, then the user's birth date, then the eligibility rules run.
    pub open spec fn eligibility_result(self, user: u128, cat: u128, today: Date) -> Result<(), category::Error> {
        if first_category(self.categories.categories@, cat) is None {
            Err(category::Error::CategoryNotFound)
        } else {
            match self.birth_of(user) {
                None => Err(category::Error::UserServiceError(crate::user::Error::UserIdDontExist)),
                Some(b) => self.categories.eligibility(user, cat, crate::user::age_on(today, b)),
            }
        }
    }

    /// What adding `user` to `cat` as of `today` returns, with the same lookups first.
    pub open spec fn join_result(self, user: u128, cat: u128, today: Date) -> Result<(), category::Error> {
        if first_category(self.categories.categories@, cat) is None {
            Err(category::Error::CategoryNotFound)
        } else {
            match self.birth_of(user) {
                None => Err(category::Error::UserServiceError(crate::user::Error::UserIdDontExist)),
                Some(b) => self.categories.joining_result(user, cat, b, today),
            }
        }
    }

    pub fn new() -> (r: Club)
        ensures
            r.categories.categories@.len() == 0,
            r.courts.courts@.len() == 0,
            r.courts.reservations@.len() == 0,
            r.tournaments@.len() == 0,
            r.tournament_registrations@.len() == 0,
            r.tournament_attendance@.len() == 0,
            r.trainings@.len() == 0,
            r.training_registrations@.len() == 0,
            r.wf(),
            r.users.users@.len() == 0,
            r.tuitions.tuitions@.len() == 0,
    {
        Club {
            categories: CategoryBook::new(),
            courts: CourtBook::new(),
            tournaments: Vec::new(),
            tournament_registrations: Vec::new(),
            tournament_attendance: Vec::new(),
            trainings: Vec::new(),
            training_registrations: Vec::new(),
            users: UserBook::new(),
            tuitions: TuitionBook::new(),
        }
    }

    fn tournament_index(&self, id: u128) -> (r: Option<usize>)
        ensures
            r matches Some(i) ==> self.tournament_at(id) == Some(i as int) && i < self.tournaments@.len(),
            r is None ==> self.tournament_at(id) is None,
    {
        let mut i: usize = 0;
        while i < self.tournaments.len()
            invariant
                i <= self.tournaments@.len(),
                first_index(self.tournaments@.subrange(0, i as int), is_tournament(id)) is None,
            decreases self.tournaments@.len() - i,
        {
            proof { lemma_first_index_step(self.tournaments@, is_tournament(id), i as int); }
            if self.tournaments[i].id_tournament == id {
                return Some(i);
            }
            i = i + 1;
        }
        proof { lemma_first_index_end(self.tournaments@, is_tournament(id)); }
        None
    }

    fn registration_position(&self, t: u128, u: u128) -> (r: Option<usize>)
        ensures
            r matches Some(i) ==> first_index(self.tournament_registrations@, is_registration(t, u)) == Some(i as int)
                && i < self.tournament_registrations@.len(),
            r is None ==> !self.registered(t, u),
    {
        let mut i: usize = 0;
        while i < self.tournament_registrations.len()
            invariant
                i <= self.tournament_registrations@.len(),
                first_index(self.tournament_registrations@.subrange(0, i as int), is_registration(t, u)) is None,
            decreases self.tournament_registrations@.len() - i,
        {
            proof { lemma_first_index_step(self.tournament_registrations@, is_registration(t, u), i as int); }
            let r = &self.tournament_registrations[i];
            if r.id_tournament == t && r.id_user == u {
                proof { lemma_first_index_bounds(self.tournament_registrations@, is_registration(t, u)); }
                return Some(i);
            }
            i = i + 1;
        }
        proof { lemma_first_index_end(self.tournament_registrations@, is_registration(t, u)); }
        None
    }

    fn attendance_index(&self, t: u128, u: u128) -> (r: Option<usize>)
        ensures
            r matches Some(i) ==> self.attended(t, u) == Some(i as int) && i < self.tournament_attendance@.len(),
            r is None ==> self.attended(t, u) is None,
    {
        let mut i: usize = 0;
        while i < self.tournament_attendance.len()
            invariant
                i <= self.tournament_attendance@.len(),
                first_index(self.tournament_attendance@.subrange(0, i as int), is_attendance(t, u)) is None,
            decreases self.tournament_attendance@.len() - i,
        {
            proof { lemma_first_index_step(self.tournament_attendance@, is_attendance(t, u), i as int); }
            let a = &self.tournament_attendance[i];
            if a.id_tournament == t && a.id_user == u {
                return Some(i);
            }
            i = i + 1;
        }
        proof { lemma_first_index_end(self.tournament_attendance@, is_attendance(t, u)); }
        None
    }

    /// Whether some user other than `except` already finished tournament `t` at `position`.
    pub fn is_position_taken(&self, t: u128, position: i32, except: Option<u128>) -> (r: bool)
        ensures
            r == self.position_taken(t, position, except),
    {
        let mut i: usize = 0;
        while i < self.tournament_attendance.len()
            invariant
                i <= self.tournament_attendance@.len(),
                forall|j: int| 0 <= j < i ==> {
                    let a = #[trigger] self.tournament_attendance@[j];
                    !(a.id_tournament == t && a.position == position && except != Some(a.id_user))
                },
            decreases self.tournament_attendance@.len() - i,
        {
            let a = &self.tournament_attendance[i];
            let same_user = match except {
                Some(u) => u == a.id_user,
                None => false,
            };
            if a.id_tournament == t && a.position == position && !same_user {
                return true;
            }
            i = i + 1;
        }
        false
    }

    /// The tournament with identity `id`.
    pub fn get_tournament(&self, id: u128) -> (r: Result<&Tournament, Error>)
        ensures
            match self.tournament_at(id) {
                Some(i) => r == Ok::<&Tournament, Error>(&self.tournaments@[i]),
                None => r == Err::<&Tournament, Error>(Error::TournamentNotFound),
            },
    {
        match self.tournament_index(id) {
            Some(i) => Ok(&self.tournaments[i]),
            None => Err(Error::TournamentNotFound),
        }
    }

    /// Creates a tournament under `id`, which must be free, and, when `court` is named,
    /// reserves that court for its window under `reservation_id`. A refused reservation takes the new tournament
    /// back out and returns the court's error.
    pub fn create_tournament(
        &mut self,
        payload: TournamentCreation,
        court: Option<u128>,
        id: u128,
        reservation_id: u128,
    ) -> (r: Result<Tournament, Error>)
        ensures
            old(self).wf() ==> final(self).wf(),
            match old(self).creation_outcome(payload, court, id) {
                Ok(()) => r == Ok::<Tournament, Error>(payload.with_id(id))
                    && final(self).tournaments@ == old(self).tournaments@.push(payload.with_id(id))
                    && final(self).courts.reservations@ == match court {
                        Some(c) => old(self).courts.reservations@.push(
                            tournament_booking(c, id, payload.start_datetime, payload.end_datetime).with_id(reservation_id)),
                        None => old(self).courts.reservations@,
                    },
                Err(e) => r == Err::<Tournament, Error>(e)
                    && final(self).tournaments@ == old(self).tournaments@
                    && final(self).courts.reservations@ == old(self).courts.reservations@,
            },
            final(self).courts.courts@ == old(self).courts.courts@,
            final(self).categories == old(self).categories,
            final(self).tournament_registrations@ == old(self).tournament_registrations@,
            final(self).tournament_attendance@ == old(self).tournament_attendance@,
            same_people(*old(self), *final(self)),
            same_trainings(*old(self), *final(self)),
    {
        if !is_valid_event_window(payload.start_datetime, payload.end_datetime) {
            return Err(Error::InvalidDates);
        }
        if let Err(e) = self.categories.get_category_by_id(payload.id_category) {
            return Err(Error::CategoryServiceError(e));
        }
        if self.tournament_index(id).is_some() {
            return Err(Error::TournamentAlreadyExists);
        }
        let start = payload.start_datetime;
        let end = payload.end_datetime;
        let tournament = payload.to_tournament(id);
        let created = tournament.clone();
        proof {
            if old(self).wf() {
                lemma_first_index_bounds(self.tournaments@, is_tournament(id));
                assert forall|a: int| 0 <= a < self.tournaments@.len()
                    implies #[trigger] distinct_tournaments()(self.tournaments@[a], tournament) by {
                    assert(!is_tournament(id)(self.tournaments@[a]));
                }
                lemma_pairwise_push(self.tournaments@, tournament, distinct_tournaments());
            }
        }
        self.tournaments.push(tournament);
        if let Some(c) = court {
            let booking = CourtReservationCreation {
                id_court: c,
                start_reservation_datetime: start,
                end_reservation_datetime: end,
                id_training: None,
                id_tournament: Some(id),
            };
            if let Err(e) = self.courts.create_reservation(booking, reservation_id) {
                self.tournaments.pop();
                proof { assert(self.tournaments@ =~= old(self).tournaments@); }
                return Err(Error::CourtServiceError(e));
            }
        }
        Ok(created)
    }
    /// Updates tournament `id` from `payload`. A reservation that no longer matches the
    /// requested court and window is released first; when a court is named and no matching
    /// reservation is kept, one is made under `reservation_id`. The tournament row is written
    /// last, only when every step before it succeeded.
    pub fn update_tournament(
        &mut self,
        id: u128,
        payload: TournamentCreation,
        court: Option<u128>,
        reservation_id: u128,
    ) -> (r: Result<Tournament, Error>)
        ensures
            old(self).wf() ==> final(self).wf(),
            r == old(self).tournament_update_result(id, payload, court, reservation_id),
            old(self).tournament_update_refusal(id, payload) is None ==> final(self).courts.reservations@
                == old(self).court_step(EventKind::Tournament, id, court, payload.start_datetime, payload.end_datetime, reservation_id).1,
            old(self).tournament_update_refusal(id, payload) is Some
                ==> final(self).courts.reservations@ == old(self).courts.reservations@,
            r is Err ==> final(self).tournaments@ == old(self).tournaments@,
            r is Ok ==> final(self).tournaments@
                == old(self).tournaments@.update(old(self).tournament_at(id).unwrap(), payload.with_id(id)),
            final(self).courts.courts@ == old(self).courts.courts@,
            final(self).categories == old(self).categories,
            final(self).tournament_registrations@ == old(self).tournament_registrations@,
            final(self).tournament_attendance@ == old(self).tournament_attendance@,
            same_people(*old(self), *final(self)),
            same_trainings(*old(self), *final(self)),
            r is Err ==> final(self).courts.reservations@ == old(self).courts.reservations@,
    {
        let i = match self.tournament_index(id) {
            Some(i) => i,
            None => return Err(Error::TournamentNotFound),
        };
        if !is_valid_event_window(payload.start_datetime, payload.end_datetime) {
            return Err(Error::InvalidDates);
        }
        if self.tournaments[i].id_category != payload.id_category {
            if let Err(e) = self.categories.get_category_by_id(payload.id_category) {
                return Err(Error::CategoryServiceError(e));
            }
        }
        let start = payload.start_datetime;
        let end = payload.end_datetime;
        let updated = payload.to_tournament(id);
        if let Err(e) = self.courts.rebook(EventKind::Tournament, id, court, start, end, reservation_id) {
            return Err(Error::CourtServiceError(e));
        }
        let result = updated.clone();
        proof {
            if old(self).wf() {
                lemma_first_index_bounds(self.tournaments@, is_tournament(id));
                assert forall|a: int| 0 <= a < self.tournaments@.len() && a != i
                    implies #[trigger] distinct_tournaments()(self.tournaments@[a], updated)
                        && distinct_tournaments()(updated, self.tournaments@[a]) by {
                    if a < i {
                        assert(distinct_tournaments()(self.tournaments@[a], self.tournaments@[i as int]));
                    } else {
                        assert(distinct_tournaments()(self.tournaments@[i as int], self.tournaments@[a]));
                    }
                }
                lemma_pairwise_update(self.tournaments@, i as int, updated, distinct_tournaments());
            }
        }
        self.tournaments.set(i, updated);
        Ok(result)
    }

    /// Checks whether `user`, a known user, may join `cat` as of `today`.
    pub fn check_user_eligibility(&self, user: u128, cat: u128, today: Date) -> (r: Result<(), category::Error>)
        ensures
            r == self.eligibility_result(user, cat, today),
    {
        if let Err(e) = self.categories.get_category_by_id(cat) {
            return Err(e);
        }
        let birth = match self.users.birth_date_of(user) {
            Some(b) => b,
            None => return Err(category::Error::UserServiceError(crate::user::Error::UserIdDontExist)),
        };
        self.categories.is_user_eligible_for_category(user, cat, birth, today)
    }

    /// Adds `user`, a known user, to `cat` at the lowest level as of `today`.
    pub fn join_category(&mut self, user: u128, cat: u128, today: Date) -> (r: Result<(), category::Error>)
        ensures
            old(self).wf() ==> final(self).wf(),
            r == old(self).join_result(user, cat, today),
            r is Ok ==> final(self).categories.user_categories@ == old(self).categories.user_categories@.push(
                category::UserCategory { id_user: user, id_category: cat, user_level: crate::level::LevelName::BEGGINER }),
            r is Err ==> final(self).categories.user_categories@ == old(self).categories.user_categories@,
            final(self).categories.categories@ == old(self).categories.categories@,
            final(self).categories.requirements@ == old(self).categories.requirements@,
            final(self).users == old(self).users,
            final(self).tuitions == old(self).tuitions,
            final(self).courts == old(self).courts,
            same_trainings(*old(self), *final(self)),
            same_tournaments(*old(self), *final(self)),
    {
        if let Err(e) = self.categories.get_category_by_id(cat) {
            return Err(e);
        }
        let birth = match self.users.birth_date_of(user) {
            Some(b) => b,
            None => return Err(category::Error::UserServiceError(crate::user::Error::UserIdDontExist)),
        };
        self.categories.add_user_to_category(user, cat, birth, today)
    }

    /// Creates a tournament under a fresh random identity, reserving `court` when named.
    /// Its result is that of `create_tournament` for some identity; the identity drawn
    /// collides with a stored one only by chance.
    pub fn create_tournament_with_new_id(&mut self, payload: TournamentCreation, court: Option<u128>)
        -> (r: Result<Tournament, Error>)
        ensures
            old(self).wf() ==> final(self).wf(),
            exists|id: u128| r == old(self).creation_result(payload, court, id),
            !valid_event_window(payload.start_datetime, payload.end_datetime)
                ==> r == Err::<Tournament, Error>(Error::InvalidDates),
            valid_event_window(payload.start_datetime, payload.end_datetime)
                && first_category(old(self).categories.categories@, payload.id_category) is None
                ==> r == Err::<Tournament, Error>(Error::CategoryServiceError(category::Error::CategoryNotFound)),
            valid_event_window(payload.start_datetime, payload.end_datetime)
                && first_category(old(self).categories.categories@, payload.id_category) is Some && court is None
                ==> (r is Ok || (r == Err::<Tournament, Error>(Error::TournamentAlreadyExists) && old(self).tournaments@.len() > 0)),
            r matches Ok(t) ==> final(self).tournaments@ == old(self).tournaments@.push(t),
            r is Err ==> final(self).tournaments@ == old(self).tournaments@
                && final(self).courts.reservations@ == old(self).courts.reservations@,
            same_people(*old(self), *final(self)),
            same_trainings(*old(self), *final(self)),
            final(self).courts.courts@ == old(self).courts.courts@,
            final(self).tournament_registrations@ == old(self).tournament_registrations@,
            final(self).tournament_attendance@ == old(self).tournament_attendance@,
    {
        let id = crate::clock::new_id();
        let reservation_id = crate::clock::new_id();
        let r = self.create_tournament(payload, court, id, reservation_id);
        proof {
            assert(r == old(self).creation_result(payload, court, id));
            if old(self).tournament_at(id) is Some {
                lemma_first_index_bounds(old(self).tournaments@, is_tournament(id));
            }
        }
        r
    }

    /// Registers `user` for tournament `id` at the current time, as of today's date.
    pub fn register_user_now(&mut self, user: u128, id: u128) -> (r: Result<TournamentRegistration, Error>)
        ensures
            old(self).wf() ==> final(self).wf(),
            exists|now: i64, today: Date| today.wf() && r == old(self).tournament_registration_result(user, id, now, today),
            r matches Ok(g) ==> final(self).tournament_registrations@ == old(self).tournament_registrations@.push(g),
            r is Err ==> final(self).tournament_registrations@ == old(self).tournament_registrations@,
            same_people(*old(self), *final(self)),
            same_trainings(*old(self), *final(self)),
            final(self).courts == old(self).courts,
            final(self).tournaments@ == old(self).tournaments@,
            final(self).tournament_attendance@ == old(self).tournament_attendance@,
    {
        let now = crate::clock::now_seconds();
        let today = crate::clock::today();
        self.register_user(user, id, now, today)
    }

    /// Records an attendance of tournament `id` at the current time.
    pub fn record_attendance_now(&mut self, req: TournamentAttendanceRequest, id: u128)
        -> (r: Result<TournamentAttendance, Error>)
        ensures
            old(self).wf() ==> final(self).wf(),
            exists|now: i64| r == old(self).attendance_result(req, id, now),
            r matches Ok(a) ==> final(self).tournament_attendance@ == old(self).tournament_attendance@.push(a),
            r is Err ==> final(self).tournament_attendance@ == old(self).tournament_attendance@,
            same_people(*old(self), *final(self)),
            same_trainings(*old(self), *final(self)),
            final(self).courts == old(self).courts,
            final(self).tournaments@ == old(self).tournaments@,
            final(self).tournament_registrations@ == old(self).tournament_registrations@,
    {
        let now = crate::clock::now_seconds();
        self.record_attendance(req, id, now)
    }

    /// The tournaments, in stored order, whose category `user` holds.
    pub fn get_eligible_tournaments(&self, user: u128) -> (r: Vec<Tournament>)
        ensures
            r@ == open_tournaments(self.tournaments@, self.categories, user),
    {
        let mut out: Vec<Tournament> = Vec::new();
        let mut i: usize = 0;
        while i < self.tournaments.len()
            invariant
                i <= self.tournaments@.len(),
                out@ == open_tournaments(self.tournaments@.subrange(0, i as int), self.categories, user),
            decreases self.tournaments@.len() - i,
        {
            let ghost s = self.tournaments@;
            assert(s.subrange(0, i + 1).drop_last() =~= s.subrange(0, i as int));
            if self.categories.user_has_category(user, self.tournaments[i].id_category) {
                out.push(self.tournaments[i].clone());
            }
            i = i + 1;
        }
        assert(self.tournaments@.subrange(0, i as int) =~= self.tournaments@);
        out
    }

    /// Withdraws the registration of `user` for tournament `id`.
    pub fn delete_registration(&mut self, id: u128, user: u128) -> (r: Result<(), Error>)
        ensures
            old(self).wf() ==> final(self).wf(),
            old(self).tournament_at(id) is None ==> r == Err::<(), Error>(Error::TournamentNotFound),
            old(self).tournament_at(id) is Some && !old(self).registered(id, user)
                ==> r == Err::<(), Error>(Error::UserNotRegistered),
            r is Ok ==> old(self).registered(id, user) && final(self).tournament_registrations@
                == old(self).tournament_registrations@.remove(
                    first_index(old(self).tournament_registrations@, is_registration(id, user)).unwrap()),
            r is Err ==> final(self).tournament_registrations@ == old(self).tournament_registrations@,
            final(self).tournaments@ == old(self).tournaments@,
            final(self).tournament_attendance@ == old(self).tournament_attendance@,
            same_people(*old(self), *final(self)),
            same_trainings(*old(self), *final(self)),
            final(self).courts == old(self).courts,
    {
        if self.tournament_index(id).is_none() {
            return Err(Error::TournamentNotFound);
        }
        let k = match self.registration_position(id, user) {
            Some(k) => k,
            None => return Err(Error::UserNotRegistered),
        };
        self.tournament_registrations.remove(k);
        Ok(())
    }

    /// Erases the attendance of `user` at tournament `id`.
    pub fn delete_attendance(&mut self, id: u128, user: u128) -> (r: Result<(), Error>)
        ensures
            old(self).wf() ==> final(self).wf(),
            old(self).tournament_at(id) is None ==> r == Err::<(), Error>(Error::TournamentNotFound),
            old(self).tournament_at(id) is Some && old(self).attended(id, user) is None
                ==> r == Err::<(), Error>(Error::UserDidNotAttend),
            r is Ok ==> old(self).attended(id, user) is Some && final(self).tournament_attendance@
                == old(self).tournament_attendance@.remove(old(self).attended(id, user).unwrap()),
            r is Err ==> final(self).tournament_attendance@ == old(self).tournament_attendance@,
            final(self).tournaments@ == old(self).tournaments@,
            final(self).tournament_registrations@ == old(self).tournament_registrations@,
            same_people(*old(self), *final(self)),
            same_trainings(*old(self), *final(self)),
            final(self).courts == old(self).courts,
    {
        if self.tournament_index(id).is_none() {
            return Err(Error::TournamentNotFound);
        }
        let k = match self.attendance_index(id, user) {
            Some(k) => k,
            None => return Err(Error::UserDidNotAttend),
        };
        proof {
            if old(self).wf() {
                lemma_pairwise_remove(self.tournament_attendance@, k as int, distinct_places());
            }
        }
        self.tournament_attendance.remove(k);
        Ok(())
    }

    /// Deletes tournament `id`, first releasing any reservation linked to it.
    pub fn delete_tournament(&mut self, id: u128) -> (r: Result<(), Error>)
        ensures
            old(self).wf() ==> final(self).wf(),
            match old(self).tournament_at(id) {
                None => r == Err::<(), Error>(Error::TournamentNotFound)
                    && final(self).tournaments@ == old(self).tournaments@
                    && final(self).courts.reservations@ == old(self).courts.reservations@,
                Some(i) => r is Ok
                    && final(self).tournaments@ == old(self).tournaments@.remove(i)
                    && final(self).courts.reservations@
                        == unlinked(old(self).courts.reservations@, EventKind::Tournament, id),
            },
            final(self).courts.courts@ == old(self).courts.courts@,
            final(self).categories == old(self).categories,
            same_people(*old(self), *final(self)),
            same_trainings(*old(self), *final(self)),
            final(self).tournament_registrations@ == old(self).tournament_registrations@,
            final(self).tournament_attendance@ == old(self).tournament_attendance@,
    {
        let i = match self.tournament_index(id) {
            Some(i) => i,
            None => return Err(Error::TournamentNotFound),
        };
        self.courts.delete_reservation_for_event(EventKind::Tournament, id);
        proof {
            if old(self).wf() {
                lemma_pairwise_remove(self.tournaments@, i as int, distinct_tournaments());
            }
        }
        self.tournaments.remove(i);
        Ok(())
    }

    /// Registers `user` for tournament `id` at time `now`, before the tournament starts. The
    /// user must hold the tournament's category and pass its eligibility check as of `today`.
    pub fn register_user(&mut self, user: u128, id: u128, now: i64, today: Date) -> (r: Result<TournamentRegistration, Error>)
        ensures
            old(self).wf() ==> final(self).wf(),
            r == old(self).tournament_registration_result(user, id, now, today),
            r matches Ok(g) ==> final(self).tournament_registrations@ == old(self).tournament_registrations@.push(g),
            r is Err ==> final(self).tournament_registrations@ == old(self).tournament_registrations@,
            final(self).tournaments@ == old(self).tournaments@,
            final(self).tournament_attendance@ == old(self).tournament_attendance@,
            same_people(*old(self), *final(self)),
            same_trainings(*old(self), *final(self)),
            final(self).courts == old(self).courts,
    {
        let i = match self.tournament_index(id) {
            Some(i) => i,
            None => return Err(Error::TournamentNotFound),
        };
        if now >= self.tournaments[i].start_datetime {
            return Err(Error::InvalidRegistrationDate);
        }
        let cat = self.tournaments[i].id_category;
        if !self.categories.user_has_category(user, cat) {
            return Err(Error::UserDoesNotMeetCategoryRequirements);
        }
        let birth = match self.users.birth_date_of(user) {
            Some(b) => b,
            None => return Err(Error::UserServiceError(crate::user::Error::UserIdDontExist)),
        };
        if let Err(e) = self.categories.is_user_eligible_for_category(user, cat, birth, today) {
            return Err(Error::CategoryServiceError(e));
        }
        if self.registration_position(id, user).is_some() {
            return Err(Error::UserAlreadyRegistered);
        }
        let registration = TournamentRegistration { id_tournament: id, id_user: user, registration_datetime: now };
        self.tournament_registrations.push(registration);
        Ok(registration)
    }

    /// Records that `req.id_user` attended tournament `id`, finishing at `req.position`.
    /// Attendance is taken only while `now` lies in the tournament's window `[start, end)`.
    pub fn record_attendance(&mut self, req: TournamentAttendanceRequest, id: u128, now: i64)
        -> (r: Result<TournamentAttendance, Error>)
        ensures
            old(self).wf() ==> final(self).wf(),
            r == old(self).attendance_result(req, id, now),
            r matches Ok(a) ==> final(self).tournament_attendance@ == old(self).tournament_attendance@.push(a),
            r is Err ==> final(self).tournament_attendance@ == old(self).tournament_attendance@,
            final(self).tournaments@ == old(self).tournaments@,
            final(self).tournament_registrations@ == old(self).tournament_registrations@,
            same_people(*old(self), *final(self)),
            same_trainings(*old(self), *final(self)),
            final(self).courts == old(self).courts,
    {
        let i = match self.tournament_index(id) {
            Some(i) => i,
            None => return Err(Error::TournamentNotFound),
        };
        if now < self.tournaments[i].start_datetime || self.tournaments[i].end_datetime <= now {
            return Err(Error::InvalidAssistanceDate);
        }
        if self.registration_position(id, req.id_user).is_none() {
            return Err(Error::UserNotRegistered);
        }
        if self.attendance_index(id, req.id_user).is_some() {
            return Err(Error::AttendanceAlreadyRecorded);
        }
        if req.position <= 0 {
            return Err(Error::NegativePosition);
        }
        if self.is_position_taken(id, req.position, None) {
            return Err(Error::PositionAlreadyTaken);
        }
        let attendance = TournamentAttendance { id_tournament: id, id_user: req.id_user, attendance_datetime: now, position: req.position };
        proof {
            if old(self).wf() {
                lemma_first_index_bounds(self.tournament_attendance@, is_attendance(id, req.id_user));
                assert forall|a: int| 0 <= a < self.tournament_attendance@.len()
                    implies #[trigger] distinct_places()(self.tournament_attendance@[a], attendance) by {
                    assert(!is_attendance(id, req.id_user)(self.tournament_attendance@[a]));
                }
                lemma_pairwise_push(self.tournament_attendance@, attendance, distinct_places());
            }
        }
        self.tournament_attendance.push(attendance);
        Ok(attendance)
    }

    /// Moves `user` to `position` in tournament `id`, which they must have attended.
    pub fn update_position(&mut self, id: u128, user: u128, position: i32) -> (r: Result<(), Error>)
        ensures
            old(self).wf() ==> final(self).wf(),
            match old(self).tournament_at(id) {
                None => r == Err::<(), Error>(Error::TournamentNotFound),
                Some(_) => match old(self).attended(id, user) {
                    None => r == Err::<(), Error>(Error::UserDidNotAttend),
                    Some(k) => if position <= 0 {
                        r == Err::<(), Error>(Error::NegativePosition)
                    } else if old(self).position_taken(id, position, Some(user)) {
                        r == Err::<(), Error>(Error::PositionAlreadyTaken)
                    } else {
                        r is Ok && final(self).tournament_attendance@ == old(self).tournament_attendance@.update(
                            k, TournamentAttendance { position, ..old(self).tournament_attendance@[k] })
                    },
                },
            },
            r is Err ==> final(self).tournament_attendance@ == old(self).tournament_attendance@,
            final(self).tournaments@ == old(self).tournaments@,
            final(self).tournament_registrations@ == old(self).tournament_registrations@,
            same_people(*old(self), *final(self)),
            same_trainings(*old(self), *final(self)),
            final(self).courts == old(self).courts,
    {
        if self.tournament_index(id).is_none() {
            return Err(Error::TournamentNotFound);
        }
        let k = match self.attendance_index(id, user) {
            Some(k) => k,
            None => return Err(Error::UserDidNotAttend),
        };
        if position <= 0 {
            return Err(Error::NegativePosition);
        }
        if self.is_position_taken(id, position, Some(user)) {
            return Err(Error::PositionAlreadyTaken);
        }
        let old_row = self.tournament_attendance[k];
        let new_row = TournamentAttendance { position, ..old_row };
        proof {
            if old(self).wf() {
                lemma_first_index_bounds(self.tournament_attendance@, is_attendance(id, user));
                let s0 = self.tournament_attendance@;
                assert forall|a: int| 0 <= a < s0.len() && a != k
                    implies #[trigger] distinct_places()(s0[a], new_row) && distinct_places()(new_row, s0[a]) by {
                    if s0[a].id_tournament == id {
                        if a < k {
                            assert(distinct_places()(s0[a], s0[k as int]));
                        } else {
                            assert(distinct_places()(s0[k as int], s0[a]));
                        }
                        assert(s0[a].id_user != user);
                    }
                }
                lemma_pairwise_update(s0, k as int, new_row, distinct_places());
            }
        }
        self.tournament_attendance.set(k, new_row);
        Ok(())
    }
}

impl Club {
    pub open spec fn training_at(self, id: u128) -> Option<int> {
        first_index(self.trainings@, is_training(id))
    }

    /// The role of user `u`, `None` when there is no such user.
    pub open spec fn role_of(self, u: u128) -> Option<URol> {
        match self.users.user_at(u) {
            Some(i) => Some(self.users.users@[i].user_rol),
            None => None,
        }
    }

    pub open spec fn training_registration_at(self, t: u128, u: u128) -> Option<int> {
        first_index(self.training_registrations@, is_training_registration(t, u))
    }

    /// The outcome of creating a training from `p` under `id`, given the role of its
    /// trainer (`None` when no such user exists), with a court when one is named.
    pub open spec fn training_outcome(
        self,
        p: TrainingCreation,
        trainer_role: Option<URol>,
        court: Option<u128>,
        id: u128,
    ) -> Result<(), training::Error> {
        if !valid_event_window(p.start_datetime, p.end_datetime) {
            Err(training::Error::InvalidDates)
        } else if trainer_error(trainer_role) is Some {
            Err(trainer_error(trainer_role).unwrap())
        } else if first_category(self.categories.categories@, p.id_category) is None {
            Err(training::Error::CategoryServiceError(category::Error::CategoryNotFound))
        } else if self.training_at(id) is Some {
            Err(training::Error::TrainingAlreadyExists)
        } else {
            match court {
                Some(c) => match self.courts.reservation_outcome(training_booking(c, id, p.start_datetime, p.end_datetime)) {
                    Err(e) => Err(training::Error::CourtServiceError(e)),
                    Ok(()) => Ok(()),
                },
                None => Ok(()),
            }
        }
    }

    /// What creating a training from `p` under `id` returns.
    pub open spec fn training_creation_result(self, p: TrainingCreation, court: Option<u128>, id: u128)
        -> Result<Training, training::Error> {
        match self.training_outcome(p, self.role_of(p.trainer_id), court, id) {
            Ok(()) => Ok(p.with_id(id)),
            Err(e) => Err(e),
        }
    }

    /// Why updating training `id` from `p` is refused before its court step, if it is.
    pub open spec fn training_update_refusal(self, id: u128, p: TrainingCreation) -> Option<training::Error> {
        match self.training_at(id) {
            None => Some(training::Error::TrainingNotFound),
            Some(i) => if !valid_event_window(p.start_datetime, p.end_datetime) {
                Some(training::Error::InvalidDates)
            } else if self.trainings@[i].trainer_id != p.trainer_id && trainer_error(self.role_of(p.trainer_id)) is Some {
                trainer_error(self.role_of(p.trainer_id))
            } else if self.trainings@[i].id_category != p.id_category
                && first_category(self.categories.categories@, p.id_category) is None {
                Some(training::Error::CategoryServiceError(category::Error::CategoryNotFound))
            } else {
                None
            },
        }
    }

    /// What updating training `id` from `p` returns.
    pub open spec fn training_update_result(self, id: u128, p: TrainingCreation, court: Option<u128>, rid: u128)
        -> Result<Training, training::Error> {
        match self.training_update_refusal(id, p) {
            Some(e) => Err(e),
            None => match self.court_step(EventKind::Training, id, court, p.start_datetime, p.end_datetime, rid).0 {
                Ok(()) => Ok(p.with_id(id)),
                Err(e) => Err(training::Error::CourtServiceError(e)),
            },
        }
    }

    /// What registering `user` for training `id` at `now`, as of `today`, returns.
    pub open spec fn training_registration_result(self, user: u128, id: u128, now: i64, today: Date)
        -> Result<TrainingRegistration, training::Error> {
        match self.training_at(id) {
            None => Err(training::Error::TrainingNotFound),
            Some(i) => if now >= self.trainings@[i].start_datetime {
                Err(training::Error::InvalidRegistrationDate)
            } else if self.categories.level_of(user, self.trainings@[i].id_category) is None {
                Err(training::Error::UserDoesNotMeetCategoryRequirements)
            } else if self.birth_of(user) is None {
                Err(training::Error::UserServiceError(crate::user::Error::UserIdDontExist))
            } else if self.categories.eligibility(user, self.trainings@[i].id_category,
                crate::user::age_on(today, self.birth_of(user).unwrap())) is Err {
                Err(training::Error::CategoryServiceError(self.categories.eligibility(user, self.trainings@[i].id_category,
                    crate::user::age_on(today, self.birth_of(user).unwrap())).get_Err_0()))
            } else if self.training_registration_at(id, user) is Some {
                Err(training::Error::UserAlreadyRegistered)
            } else if self.trainings@[i].minimum_payment > 0
                && !self.tuitions.active_with_amount(user, self.trainings@[i].minimum_payment, now) {
                Err(training::Error::TuitionRequired)
            } else {
                Ok(TrainingRegistration {
                    id_training: id, id_user: user, registration_datetime: now, attended: false, attendance_datetime: None })
            },
        }
    }

    fn training_index(&self, id: u128) -> (r: Option<usize>)
        ensures
            r matches Some(i) ==> self.training_at(id) == Some(i as int) && i < self.trainings@.len(),
            r is None ==> self.training_at(id) is None,
    {
        let mut i: usize = 0;
        while i < self.trainings.len()
            invariant
                i <= self.trainings@.len(),
                first_index(self.trainings@.subrange(0, i as int), is_training(id)) is None,
            decreases self.trainings@.len() - i,
        {
            proof { lemma_first_index_step(self.trainings@, is_training(id), i as int); }
            if self.trainings[i].id_training == id {
                return Some(i);
            }
            i = i + 1;
        }
        proof { lemma_first_index_end(self.trainings@, is_training(id)); }
        None
    }

    fn training_registration_index(&self, t: u128, u: u128) -> (r: Option<usize>)
        ensures
            r matches Some(i) ==> self.training_registration_at(t, u) == Some(i as int)
                && i < self.training_registrations@.len(),
            r is None ==> self.training_registration_at(t, u) is None,
    {
        let mut i: usize = 0;
        while i < self.training_registrations.len()
            invariant
                i <= self.training_registrations@.len(),
                first_index(self.training_registrations@.subrange(0, i as int), is_training_registration(t, u)) is None,
            decreases self.training_registrations@.len() - i,
        {
            proof { lemma_first_index_step(self.training_registrations@, is_training_registration(t, u), i as int); }
            let r = &self.training_registrations[i];
            if r.id_training == t && r.id_user == u {
                return Some(i);
            }
            i = i + 1;
        }
        proof { lemma_first_index_end(self.training_registrations@, is_training_registration(t, u)); }
        None
    }

    /// The training with identity `id`.
    pub fn get_training(&self, id: u128) -> (r: Result<&Training, training::Error>)
        ensures
            match self.training_at(id) {
                Some(i) => r == Ok::<&Training, training::Error>(&self.trainings@[i]),
                None => r == Err::<&Training, training::Error>(training::Error::TrainingNotFound),
            },
    {
        match self.training_index(id) {
            Some(i) => Ok(&self.trainings[i]),
            None => Err(training::Error::TrainingNotFound),
        }
    }

    /// Checks a trainer lookup: the user must exist and hold the trainer role.
    pub fn check_trainer(trainer_role: Option<URol>) -> (r: Result<(), training::Error>)
        ensures
            match trainer_error(trainer_role) {
                Some(e) => r == Err::<(), training::Error>(e),
                None => r is Ok,
            },
    {
        match trainer_role {
            None => Err(training::Error::UserServiceError(crate::user::Error::UserIdDontExist)),
            Some(role) => if role == URol::TRAINER {
                Ok(())
            } else {
                Err(training::Error::UserIsNotTrainer)
            },
        }
    }

    /// Creates a training under `id`, which must be free, led by a user who holds the
    /// trainer role. When `court` is named, that court is
    /// reserved for the training's window under `reservation_id`; a refused reservation
    /// takes the new training back out and returns the court's error.
    pub fn create_training(
        &mut self,
        payload: TrainingCreation,
        court: Option<u128>,
        id: u128,
        reservation_id: u128,
    ) -> (r: Result<Training, training::Error>)
        ensures
            old(self).wf() ==> final(self).wf(),
            match old(self).training_outcome(payload, old(self).role_of(payload.trainer_id), court, id) {
                Ok(()) => r == Ok::<Training, training::Error>(payload.with_id(id))
                    && final(self).trainings@ == old(self).trainings@.push(payload.with_id(id))
                    && final(self).courts.reservations@ == match court {
                        Some(c) => old(self).courts.reservations@.push(
                            training_booking(c, id, payload.start_datetime, payload.end_datetime).with_id(reservation_id)),
                        None => old(self).courts.reservations@,
                    },
                Err(e) => r == Err::<Training, training::Error>(e)
                    && final(self).trainings@ == old(self).trainings@
                    && final(self).courts.reservations@ == old(self).courts.reservations@,
            },
            final(self).courts.courts@ == old(self).courts.courts@,
            final(self).categories == old(self).categories,
            final(self).training_registrations@ == old(self).training_registrations@,
            final(self).tournaments@ == old(self).tournaments@,
            same_people(*old(self), *final(self)),
            same_tournaments(*old(self), *final(self)),
    {
        if !is_valid_event_window(payload.start_datetime, payload.end_datetime) {
            return Err(training::Error::InvalidDates);
        }
        if let Err(e) = Club::check_trainer(self.users.role_of(payload.trainer_id)) {
            return Err(e);
        }
        if let Err(e) = self.categories.get_category_by_id(payload.id_category) {
            return Err(training::Error::CategoryServiceError(e));
        }
        if self.training_index(id).is_some() {
            return Err(training::Error::TrainingAlreadyExists);
        }
        let start = payload.start_datetime;
        let end = payload.end_datetime;
        let training = payload.to_training(id);
        let created = training.clone();
        proof {
            if old(self).wf() {
                lemma_first_index_bounds(self.trainings@, is_training(id));
                assert forall|a: int| 0 <= a < self.trainings@.len()
                    implies #[trigger] distinct_trainings()(self.trainings@[a], training) by {
                    assert(!is_training(id)(self.trainings@[a]));
                }
                lemma_pairwise_push(self.trainings@, training, distinct_trainings());
            }
        }
        self.trainings.push(training);
        if let Some(c) = court {
            let booking = CourtReservationCreation {
                id_court: c,
                start_reservation_datetime: start,
                end_reservation_datetime: end,
                id_training: Some(id),
                id_tournament: None,
            };
            if let Err(e) = self.courts.create_reservation(booking, reservation_id) {
                self.trainings.pop();
                proof { assert(self.trainings@ =~= old(self).trainings@); }
                return Err(training::Error::CourtServiceError(e));
            }
        }
        Ok(created)
    }

    /// Creates a training under a fresh random identity, reserving `court` when named. Its
    /// result is that of `create_training` for some identity; the identity drawn collides
    /// with a stored one only by chance.
    pub fn create_training_with_new_id(&mut self, payload: TrainingCreation, court: Option<u128>)
        -> (r: Result<Training, training::Error>)
        ensures
            old(self).wf() ==> final(self).wf(),
            exists|id: u128| r == old(self).training_creation_result(payload, court, id),
            !valid_event_window(payload.start_datetime, payload.end_datetime)
                ==> r == Err::<Training, training::Error>(training::Error::InvalidDates),
            valid_event_window(payload.start_datetime, payload.end_datetime)
                && trainer_error(old(self).role_of(payload.trainer_id)) is Some
                ==> r == Err::<Training, training::Error>(trainer_error(old(self).role_of(payload.trainer_id)).unwrap()),
            valid_event_window(payload.start_datetime, payload.end_datetime)
                && trainer_error(old(self).role_of(payload.trainer_id)) is None
                && first_category(old(self).categories.categories@, payload.id_category) is Some && court is None
                ==> (r is Ok || (r == Err::<Training, training::Error>(training::Error::TrainingAlreadyExists)
                    && old(self).trainings@.len() > 0)),
            r matches Ok(t) ==> final(self).trainings@ == old(self).trainings@.push(t),
            r is Err ==> final(self).trainings@ == old(self).trainings@
                && final(self).courts.reservations@ == old(self).courts.reservations@,
            final(self).courts.courts@ == old(self).courts.courts@,
            final(self).training_registrations@ == old(self).training_registrations@,
            same_people(*old(self), *final(self)),
            same_tournaments(*old(self), *final(self)),
    {
        let id = crate::clock::new_id();
        let reservation_id = crate::clock::new_id();
        let r = self.create_training(payload, court, id, reservation_id);
        proof {
            assert(r == old(self).training_creation_result(payload, court, id));
            if old(self).training_at(id) is Some {
                lemma_first_index_bounds(old(self).trainings@, is_training(id));
            }
        }
        r
    }

    /// Updates training `id` from `payload`; a new trainer must hold the trainer role. A
    /// reservation that no longer matches the requested court and window is released first;
    /// when a court is named and no matching reservation is kept, one is made under
    /// `reservation_id`. The training row is written last, only when every step before it
    /// succeeded.
    pub fn update_training(
        &mut self,
        id: u128,
        payload: TrainingCreation,
        court: Option<u128>,
        reservation_id: u128,
    ) -> (r: Result<Training, training::Error>)
        ensures
            old(self).wf() ==> final(self).wf(),
            r == old(self).training_update_result(id, payload, court, reservation_id),
            old(self).training_update_refusal(id, payload) is None ==> final(self).courts.reservations@
                == old(self).court_step(EventKind::Training, id, court, payload.start_datetime, payload.end_datetime, reservation_id).1,
            old(self).training_update_refusal(id, payload) is Some
                ==> final(self).courts.reservations@ == old(self).courts.reservations@,
            r is Err ==> final(self).trainings@ == old(self).trainings@,
            r is Ok ==> final(self).trainings@
                == old(self).trainings@.update(old(self).training_at(id).unwrap(), payload.with_id(id)),
            final(self).courts.courts@ == old(self).courts.courts@,
            final(self).categories == old(self).categories,
            final(self).training_registrations@ == old(self).training_registrations@,
            same_people(*old(self), *final(self)),
            same_tournaments(*old(self), *final(self)),
            r is Err ==> final(self).courts.reservations@ == old(self).courts.reservations@,
    {
        let i = match self.training_index(id) {
            Some(i) => i,
            None => return Err(training::Error::TrainingNotFound),
        };
        if !is_valid_event_window(payload.start_datetime, payload.end_datetime) {
            return Err(training::Error::InvalidDates);
        }
        if self.trainings[i].trainer_id != payload.trainer_id {
            if let Err(e) = Club::check_trainer(self.users.role_of(payload.trainer_id)) {
                return Err(e);
            }
        }
        if self.trainings[i].id_category != payload.id_category {
            if let Err(e) = self.categories.get_category_by_id(payload.id_category) {
                return Err(training::Error::CategoryServiceError(e));
            }
        }
        let start = payload.start_datetime;
        let end = payload.end_datetime;
        let updated = payload.to_training(id);
        if let Err(e) = self.courts.rebook(EventKind::Training, id, court, start, end, reservation_id) {
            return Err(training::Error::CourtServiceError(e));
        }
        let result = updated.clone();
        proof {
            if old(self).wf() {
                lemma_first_index_bounds(self.trainings@, is_training(id));
                lemma_same_identity_keeps_trainings_distinct(self.trainings@, i as int, updated);
            }
        }
        self.trainings.set(i, updated);
        Ok(result)
    }

    /// The trainings, in stored order, whose category `user` holds.
    pub fn get_eligible_trainings(&self, user: u128) -> (r: Vec<Training>)
        ensures
            r@ == open_trainings(self.trainings@, self.categories, user),
    {
        let mut out: Vec<Training> = Vec::new();
        let mut i: usize = 0;
        while i < self.trainings.len()
            invariant
                i <= self.trainings@.len(),
                out@ == open_trainings(self.trainings@.subrange(0, i as int), self.categories, user),
            decreases self.trainings@.len() - i,
        {
            let ghost s = self.trainings@;
            assert(s.subrange(0, i + 1).drop_last() =~= s.subrange(0, i as int));
            if self.categories.user_has_category(user, self.trainings[i].id_category) {
                out.push(self.trainings[i].clone());
            }
            i = i + 1;
        }
        assert(self.trainings@.subrange(0, i as int) =~= self.trainings@);
        out
    }

    /// The trainings, in stored order, led by `trainer`, who must hold the trainer role.
    pub fn get_trainings_by_trainer(&self, trainer: u128) -> (r: Result<Vec<Training>, training::Error>)
        ensures
            match trainer_error(self.role_of(trainer)) {
                Some(e) => r == Err::<Vec<Training>, training::Error>(e),
                None => (r matches Ok(v) && v@ == led_by(self.trainings@, trainer)),
            },
    {
        if let Err(e) = Club::check_trainer(self.users.role_of(trainer)) {
            return Err(e);
        }
        let mut out: Vec<Training> = Vec::new();
        let mut i: usize = 0;
        while i < self.trainings.len()
            invariant
                i <= self.trainings@.len(),
                out@ == led_by(self.trainings@.subrange(0, i as int), trainer),
            decreases self.trainings@.len() - i,
        {
            let ghost s = self.trainings@;
            assert(s.subrange(0, i + 1).drop_last() =~= s.subrange(0, i as int));
            if self.trainings[i].trainer_id == trainer {
                out.push(self.trainings[i].clone());
            }
            i = i + 1;
        }
        assert(self.trainings@.subrange(0, i as int) =~= self.trainings@);
        Ok(out)
    }

    /// Withdraws the registration of `user` for training `id`.
    pub fn delete_training_registration(&mut self, id: u128, user: u128) -> (r: Result<(), training::Error>)
        ensures
            old(self).wf() ==> final(self).wf(),
            old(self).training_at(id) is None ==> r == Err::<(), training::Error>(training::Error::TrainingNotFound),
            old(self).training_at(id) is Some && old(self).training_registration_at(id, user) is None
                ==> r == Err::<(), training::Error>(training::Error::RegistrationNotFound),
            r is Ok ==> old(self).training_registration_at(id, user) is Some && final(self).training_registrations@
                == old(self).training_registrations@.remove(old(self).training_registration_at(id, user).unwrap()),
            r is Err ==> final(self).training_registrations@ == old(self).training_registrations@,
            final(self).trainings@ == old(self).trainings@,
            same_people(*old(self), *final(self)),
            same_tournaments(*old(self), *final(self)),
            final(self).courts == old(self).courts,
    {
        if self.training_index(id).is_none() {
            return Err(training::Error::TrainingNotFound);
        }
        let k = match self.training_registration_index(id, user) {
            Some(k) => k,
            None => return Err(training::Error::RegistrationNotFound),
        };
        self.training_registrations.remove(k);
        Ok(())
    }

    /// Deletes training `id`, first releasing any reservation linked to it.
    pub fn delete_training(&mut self, id: u128) -> (r: Result<(), training::Error>)
        ensures
            old(self).wf() ==> final(self).wf(),
            match old(self).training_at(id) {
                None => r == Err::<(), training::Error>(training::Error::TrainingNotFound)
                    && final(self).trainings@ == old(self).trainings@
                    && final(self).courts.reservations@ == old(self).courts.reservations@,
                Some(i) => r is Ok
                    && final(self).trainings@ == old(self).trainings@.remove(i)
                    && final(self).courts.reservations@
                        == unlinked(old(self).courts.reservations@, EventKind::Training, id),
            },
            final(self).courts.courts@ == old(self).courts.courts@,
            final(self).categories == old(self).categories,
            same_people(*old(self), *final(self)),
            same_tournaments(*old(self), *final(self)),
            final(self).training_registrations@ == old(self).training_registrations@,
    {
        let i = match self.training_index(id) {
            Some(i) => i,
            None => return Err(training::Error::TrainingNotFound),
        };
        self.courts.delete_reservation_for_event(EventKind::Training, id);
        proof {
            if old(self).wf() {
                lemma_pairwise_remove(self.trainings@, i as int, distinct_trainings());
            }
        }
        self.trainings.remove(i);
        Ok(())
    }

    /// Registers `user` for training `id` at time `now`, before the training starts. The user
    /// must hold the training's category and pass its eligibility check as of `today`; when
    /// the training asks for a minimum payment, they must hold an active tuition of at least
    /// that amount.
    pub fn register_user_for_training(&mut self, user: u128, id: u128, now: i64, today: Date)
        -> (r: Result<TrainingRegistration, training::Error>)
        ensures
            old(self).wf() ==> final(self).wf(),
            r == old(self).training_registration_result(user, id, now, today),
            r matches Ok(g) ==> final(self).training_registrations@ == old(self).training_registrations@.push(g),
            r is Err ==> final(self).training_registrations@ == old(self).training_registrations@,
            final(self).trainings@ == old(self).trainings@,
            same_people(*old(self), *final(self)),
            same_tournaments(*old(self), *final(self)),
            final(self).courts == old(self).courts,
    {
        let i = match self.training_index(id) {
            Some(i) => i,
            None => return Err(training::Error::TrainingNotFound),
        };
        if now >= self.trainings[i].start_datetime {
            return Err(training::Error::InvalidRegistrationDate);
        }
        let cat = self.trainings[i].id_category;
        if !self.categories.user_has_category(user, cat) {
            return Err(training::Error::UserDoesNotMeetCategoryRequirements);
        }
        let birth = match self.users.birth_date_of(user) {
            Some(b) => b,
            None => return Err(training::Error::UserServiceError(crate::user::Error::UserIdDontExist)),
        };
        if let Err(e) = self.categories.is_user_eligible_for_category(user, cat, birth, today) {
            return Err(training::Error::CategoryServiceError(e));
        }
        if self.training_registration_index(id, user).is_some() {
            return Err(training::Error::UserAlreadyRegistered);
        }
        let minimum = self.trainings[i].minimum_payment;
        if minimum > 0 && !self.tuitions.has_active_tuition_with_amount(user, minimum, now) {
            return Err(training::Error::TuitionRequired);
        }
        let registration = TrainingRegistration {
            id_training: id, id_user: user, registration_datetime: now, attended: false, attendance_datetime: None };
        self.training_registrations.push(registration);
        Ok(registration)
    }

    /// Marks whether `user` attended training `id`; an attendance is stamped with `now`.
    pub fn mark_attendance(&mut self, id: u128, user: u128, attended: bool, now: i64) -> (r: Result<(), training::Error>)
        ensures
            old(self).wf() ==> final(self).wf(),
            old(self).training_at(id) is None ==> r == Err::<(), training::Error>(training::Error::TrainingNotFound),
            old(self).training_at(id) is Some && old(self).training_registration_at(id, user) is None
                ==> r == Err::<(), training::Error>(training::Error::UserNotRegistered),
            old(self).training_at(id) is Some && old(self).training_registration_at(id, user) is Some
                ==> r is Ok && final(self).training_registrations@ == old(self).training_registrations@.update(
                    old(self).training_registration_at(id, user).unwrap(),
                    TrainingRegistration {
                        attended,
                        attendance_datetime: if attended { Some(now) } else { None },
                        ..old(self).training_registrations@[old(self).training_registration_at(id, user).unwrap()]
                    }),
            r is Err ==> final(self).training_registrations@ == old(self).training_registrations@,
            final(self).trainings@ == old(self).trainings@,
            same_people(*old(self), *final(self)),
            same_tournaments(*old(self), *final(self)),
            final(self).courts == old(self).courts,
    {
        if self.training_index(id).is_none() {
            return Err(training::Error::TrainingNotFound);
        }
        let k = match self.training_registration_index(id, user) {
            Some(k) => k,
            None => return Err(training::Error::UserNotRegistered),
        };
        let row = self.training_registrations[k];
        let stamp = if attended { Some(now) } else { None };
        self.training_registrations.set(k, TrainingRegistration { attended, attendance_datetime: stamp, ..row });
        Ok(())
    }
}

} // verus!

verus! {

/// In a well-formed club, creating a tournament under a new identity on a court that is
/// already booked for an overlapping window fails with the court's `CourtUnavailable`; by the contract of `create_tournament` the
/// tournament list is then unchanged, so an identity that was free stays free.
pub proof fn lemma_booked_court_rolls_back_tournament(club: Club, p: TournamentCreation, c: u128, id: u128)
    requires
        valid_event_window(p.start_datetime, p.end_datetime),
        first_category(club.categories.categories@, p.id_category) is Some,
        club.wf(),
        club.tournament_at(id) is None,
        club.courts.occupied(c, p.start_datetime, p.end_datetime, None),
    ensures
        club.creation_outcome(p, Some(c), id) == Err::<(), Error>(Error::CourtServiceError(court::Error::CourtUnavailable)),
{
    let i = choose|i: int| 0 <= i < club.courts.reservations@.len()
        && court::blocks(#[trigger] club.courts.reservations@[i], c, p.start_datetime, p.end_datetime, None);
    assert(court::court_in(club.courts.courts@, club.courts.reservations@[i].id_court));
}

/// The same for a training whose trainer holds the trainer role.
pub proof fn lemma_booked_court_rolls_back_training(club: Club, p: TrainingCreation, c: u128, id: u128)
    requires
        valid_event_window(p.start_datetime, p.end_datetime),
        first_category(club.categories.categories@, p.id_category) is Some,
        club.wf(),
        club.training_at(id) is None,
        club.courts.occupied(c, p.start_datetime, p.end_datetime, None),
        club.role_of(p.trainer_id) == Some(URol::TRAINER),
    ensures
        club.training_outcome(p, club.role_of(p.trainer_id), Some(c), id)
            == Err::<(), training::Error>(training::Error::CourtServiceError(court::Error::CourtUnavailable)),
{
    let i = choose|i: int| 0 <= i < club.courts.reservations@.len()
        && court::blocks(#[trigger] club.courts.reservations@[i], c, p.start_datetime, p.end_datetime, None);
    assert(court::court_in(club.courts.courts@, club.courts.reservations@[i].id_court));
}

/// After a refused creation the store of tournaments is as it was: a lookup of an
/// identity that was free before the call still finds nothing.
pub proof fn lemma_refused_creation_leaves_no_tournament(before: Club, after: Club, id: u128)
    requires
        before.tournament_at(id) is None,
        after.tournaments@ == before.tournaments@,
    ensures
        after.tournament_at(id) is None,
{
}

} // verus!
