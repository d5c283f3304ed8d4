use vstd::prelude::*;
use crate::category;
use crate::court;
use crate::tuition;
use crate::user;

verus! {

/// Failures of the training subsystem.
#[derive(Clone, Debug, PartialEq, Eq)]
pub enum Error {
    UnknownDatabaseError(String),
    TrainingNotFound,
    UserAlreadyRegistered,
    UserDoesNotMeetCategoryRequirements,
    InvalidDates,
    UserNotRegistered,
    RegistrationNotFound,
    CategoryServiceError(category::Error),
    CourtServiceError(court::Error),
    UserServiceError(user::Error),
    TuitionServiceError(tuition::Error),
    InvalidAssistanceDate,
    InvalidRegistrationDate,
    UserIsNotTrainer,
    TrainingAlreadyExists,
    TuitionRequired,
}

/// A training of a category, led by a trainer, over `[start_datetime, end_datetime)`.
/// `minimum_payment` is the smallest active tuition, in cents, that lets a user register.
#[derive(Debug)]
pub struct Training {
    pub id_training: u128,
    pub name: String,
    pub id_category: u128,
    pub trainer_id: u128,
    pub start_datetime: i64,
    pub end_datetime: i64,
    pub minimum_payment: u64,
}

impl Clone for Training {
    fn clone(&self) -> (r: Self)
        ensures
            r == *self,
    {
        Training {
            id_training: self.id_training,
            name: self.name.clone(),
            id_category: self.id_category,
            trainer_id: self.trainer_id,
            start_datetime: self.start_datetime,
            end_datetime: self.end_datetime,
            minimum_payment: self.minimum_payment,
        }
    }
}

/// What a caller gives to create or update a training.
#[derive(Debug)]
pub struct TrainingCreation {
    pub name: String,
    pub id_category: u128,
    pub trainer_id: u128,
    pub start_datetime: i64,
    pub end_datetime: i64,
    pub minimum_payment: u64,
}

impl TrainingCreation {
    pub open spec fn with_id(self, id: u128) -> Training {
        Training {
            id_training: id,
            name: self.name,
            id_category: self.id_category,
            trainer_id: self.trainer_id,
            start_datetime: self.start_datetime,
            end_datetime: self.end_datetime,
            minimum_payment: self.minimum_payment,
        }
    }

    /// The training that this payload becomes under the identity `id`.
    pub fn to_training(self, id: u128) -> (r: Training)
        ensures
            r == self.with_id(id),
    {
        Training {
            id_training: id,
            name: self.name,
            id_category: self.id_category,
            trainer_id: self.trainer_id,
            start_datetime: self.start_datetime,
            end_datetime: self.end_datetime,
            minimum_payment: self.minimum_payment,
        }
    }
}

/// A user's registration for a training, and whether they attended it.
#[derive(Clone, Copy, Debug, PartialEq, Eq, Structural)]
pub struct TrainingRegistration {
    pub id_training: u128,
    pub id_user: u128,
    pub registration_datetime: i64,
    pub attended: bool,
    pub attendance_datetime: Option<i64>,
}

pub open spec fn is_training(id: u128) -> spec_fn(Training) -> bool {
    |t: Training| t.id_training == id
}

pub open spec fn is_training_registration(t: u128, u: u128) -> spec_fn(TrainingRegistration) -> bool {
    |r: TrainingRegistration| r.id_training == t && r.id_user == u
}

/// The refusal of a trainer lookup: `None` when `role` is the role of a trainer.
pub open spec fn trainer_error(role: Option<user::URol>) -> Option<Error> {
    match role {
        None => Some(Error::UserServiceError(user::Error::UserIdDontExist)),
        Some(r) => if r == user::URol::TRAINER {
            None
        } else {
            Some(Error::UserIsNotTrainer)
        },
    }
}

} // verus!
