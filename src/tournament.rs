use vstd::prelude::*;
use crate::category;
use crate::court;
use crate::user;

verus! {

/// Failures of the tournament subsystem.
#[derive(Clone, Debug, PartialEq, Eq)]
pub enum Error {
    UnknownDatabaseError(String),
    TournamentNotFound,
    UserNotRegistered,
    UserAlreadyRegistered,
    InvalidDates,
    InvalidCategory,
    NegativePosition,
    PositionAlreadyTaken,
    UserDidNotAttend,
    UserDoesNotMeetCategoryRequirements,
    InvalidAssistanceDate,
    InvalidRegistrationDate,
    AttendanceAlreadyRecorded,
    TournamentAlreadyExists,
    CategoryServiceError(category::Error),
    UserServiceError(user::Error),
    CourtServiceError(court::Error),
}

/// A tournament of a category over `[start_datetime, end_datetime)`.
#[derive(Debug)]
pub struct Tournament {
    pub id_tournament: u128,
    pub name: String,
    pub id_category: u128,
    pub start_datetime: i64,
    pub end_datetime: i64,
}

impl Clone for Tournament {
    fn clone(&self) -> (r: Self)
        ensures
            r == *self,
    {
        Tournament {
            id_tournament: self.id_tournament,
            name: self.name.clone(),
            id_category: self.id_category,
            start_datetime: self.start_datetime,
            end_datetime: self.end_datetime,
        }
    }
}

/// What a caller gives to create or update a tournament.
#[derive(Debug)]
pub struct TournamentCreation {
    pub name: String,
    pub id_category: u128,
    pub start_datetime: i64,
    pub end_datetime: i64,
}

impl TournamentCreation {
    pub open spec fn with_id(self, id: u128) -> Tournament {
        Tournament {
            id_tournament: id,
            name: self.name,
            id_category: self.id_category,
            start_datetime: self.start_datetime,
            end_datetime: self.end_datetime,
        }
    }

    /// The tournament that this payload becomes under the identity `id`.
    pub fn to_tournament(self, id: u128) -> (r: Tournament)
        ensures
            r == self.with_id(id),
    {
        Tournament {
            id_tournament: id,
            name: self.name,
            id_category: self.id_category,
            start_datetime: self.start_datetime,
            end_datetime: self.end_datetime,
        }
    }
}

/// A user's registration for a tournament.
#[derive(Clone, Copy, Debug, PartialEq, Eq, Structural)]
pub struct TournamentRegistration {
    pub id_tournament: u128,
    pub id_user: u128,
    pub registration_datetime: i64,
}

/// A user's attendance of a tournament, with the place they finished in.
#[derive(Clone, Copy, Debug, PartialEq, Eq, Structural)]
pub struct TournamentAttendance {
    pub id_tournament: u128,
    pub id_user: u128,
    pub attendance_datetime: i64,
    pub position: i32,
}

/// What a caller gives to record an attendance.
#[derive(Clone, Copy, Debug, PartialEq, Eq, Structural)]
pub struct TournamentAttendanceRequest {
    pub id_user: u128,
    pub position: i32,
}

/// A new finishing position.
#[derive(Clone, Copy, Debug, PartialEq, Eq, Structural)]
pub struct UpdatePositionPayload {
    pub position: i32,
}

pub open spec fn is_tournament(id: u128) -> spec_fn(Tournament) -> bool {
    |t: Tournament| t.id_tournament == id
}

pub open spec fn is_registration(t: u128, u: u128) -> spec_fn(TournamentRegistration) -> bool {
    |r: TournamentRegistration| r.id_tournament == t && r.id_user == u
}

pub open spec fn is_attendance(t: u128, u: u128) -> spec_fn(TournamentAttendance) -> bool {
    |a: TournamentAttendance| a.id_tournament == t && a.id_user == u
}

} // verus!
