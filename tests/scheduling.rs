use club_scheduler::category::{self, CategoryBook};
use club_scheduler::club::Club;
use club_scheduler::court::{self, CourtReservationCreation, EventKind};
use club_scheduler::event::is_valid_event_window;
use club_scheduler::interval::Interval;
use club_scheduler::level::LevelName;
use club_scheduler::tournament::{self, TournamentAttendanceRequest, TournamentCreation};
use club_scheduler::training::{self, TrainingCreation};
use club_scheduler::user::{Date, IdType, URol, User};

const HOUR: i64 = 3600;
const T10: i64 = 10 * HOUR;

const CAT: u128 = 1;
const PRE: u128 = 2;
const COURT_X: u128 = 100;

fn adult() -> Date {
    Date { year: 1990, month: 5, day: 20 }
}

fn today() -> Date {
    Date { year: 2024, month: 6, day: 1 }
}

fn member(id: u128, role: URol) -> User {
    User {
        id_user: id,
        first_name: "Sam".to_string(),
        last_name: "Diaz".to_string(),
        birth_date: adult(),
        registration_date: 0,
        email: format!("user{id}@example.com"),
        email_verified: true,
        phone_number: format!("{id}"),
        country_code: "+57".to_string(),
        password: String::new(),
        identification_number: format!("DOC-{id}"),
        identification_type: IdType::CC,
        user_rol: role,
    }
}

fn club_with_court() -> Club {
    let mut club = Club::new();
    club.users.users.push(member(77, URol::TRAINER));
    club.users.users.push(member(79, URol::USER));
    for u in [1u128, 2, 8, 9] {
        club.users.users.push(member(u, URol::USER));
    }
    club.categories.add_category(CAT, "Open".to_string(), 5, 80).unwrap();
    club.courts.create_court(COURT_X, "Court X".to_string()).unwrap();
    club
}

fn tournament_payload(start: i64, end: i64) -> TournamentCreation {
    TournamentCreation { name: "Cup".to_string(), id_category: CAT, start_datetime: start, end_datetime: end }
}

fn training_payload(start: i64, end: i64) -> TrainingCreation {
    TrainingCreation {
        name: "Drills".to_string(),
        id_category: CAT,
        trainer_id: 77,
        start_datetime: start,
        end_datetime: end,
        minimum_payment: 0,
    }
}

#[test]
fn overlap_is_symmetric() {
    let a = Interval { start: 10, end: 20 };
    let b = Interval { start: 15, end: 30 };
    let c = Interval { start: 25, end: 40 };
    assert!(a.overlaps(&b));
    assert_eq!(a.overlaps(&b), b.overlaps(&a));
    assert!(!a.overlaps(&c));
    assert_eq!(a.overlaps(&c), c.overlaps(&a));
}

#[test]
fn touching_intervals_do_not_overlap() {
    let a = Interval { start: 10, end: 20 };
    let b = Interval { start: 20, end: 30 };
    assert!(!a.overlaps(&b));
    assert!(!b.overlaps(&a));
}

#[test]
fn level_values_follow_the_order() {
    assert_eq!(LevelName::BEGGINER.value(), 0);
    assert_eq!(LevelName::AMATEUR.value(), 1);
    assert_eq!(LevelName::PROFESSIONAL.value(), 2);
    assert!(LevelName::BEGGINER.is_below(&LevelName::AMATEUR));
    assert!(!LevelName::PROFESSIONAL.is_below(&LevelName::AMATEUR));
    assert_eq!(LevelName::AMATEUR.as_str(), "AMATEUR");
}

#[test]
fn prerequisite_chain_scenario() {
    let mut book = CategoryBook::new();
    book.add_category(PRE, "P".to_string(), 5, 80).unwrap();
    book.add_category(CAT, "C".to_string(), 5, 80).unwrap();
    book.add_category_requirement(CAT, PRE, "P at amateur".to_string(), LevelName::AMATEUR).unwrap();
    let u: u128 = 9;
    assert_eq!(
        book.add_user_to_category(u, CAT, adult(), today()),
        Err(category::Error::UserDoesNotMeetRequirements)
    );
    book.add_user_to_category(u, PRE, adult(), today()).unwrap();
    assert_eq!(
        book.add_user_to_category(u, CAT, adult(), today()),
        Err(category::Error::InvalidRequirementLevel)
    );
    book.update_user_category_level(u, PRE, LevelName::AMATEUR).unwrap();
    assert_eq!(book.add_user_to_category(u, CAT, adult(), today()), Ok(()));
    let row = book.get_user_category(u, CAT).unwrap();
    assert_eq!(row.user_level, LevelName::BEGGINER);
    assert_eq!(
        book.add_user_to_category(u, CAT, adult(), today()),
        Err(category::Error::UserAlreadyHasCategory)
    );
}

#[test]
fn higher_level_keeps_eligibility() {
    let mut book = CategoryBook::new();
    book.add_category(PRE, "P".to_string(), 5, 80).unwrap();
    book.add_category(CAT, "C".to_string(), 5, 80).unwrap();
    book.add_category(3, "D".to_string(), 5, 80).unwrap();
    book.add_category_requirement(CAT, PRE, "P at professional".to_string(), LevelName::PROFESSIONAL).unwrap();
    book.add_category_requirement(3, PRE, "P at beginner".to_string(), LevelName::BEGGINER).unwrap();
    let u: u128 = 9;
    book.add_user_to_category(u, PRE, adult(), today()).unwrap();
    book.update_user_category_level(u, PRE, LevelName::PROFESSIONAL).unwrap();
    assert_eq!(book.check_eligibility(u, CAT, 30), Ok(()));
    assert_eq!(book.check_eligibility(u, 3, 30), Ok(()));
}

#[test]
fn eligibility_checks_age_and_category() {
    let mut book = CategoryBook::new();
    book.add_category(CAT, "Juniors".to_string(), 8, 12).unwrap();
    assert_eq!(book.check_eligibility(1, 42, 10), Err(category::Error::CategoryNotFound));
    assert_eq!(book.check_eligibility(1, CAT, 7), Err(category::Error::InvalidUserAge));
    assert_eq!(book.check_eligibility(1, CAT, 13), Err(category::Error::InvalidUserAge));
    assert_eq!(book.check_eligibility(1, CAT, 8), Ok(()));
    assert_eq!(book.check_eligibility(1, CAT, 12), Ok(()));
    assert_eq!(
        book.add_user_to_category(1, CAT, adult(), today()),
        Err(category::Error::InvalidUserAge)
    );
}

#[test]
fn category_creation_rules() {
    let mut book = CategoryBook::new();
    assert_eq!(book.add_category(1, "A".to_string(), 10, 10), Err(category::Error::InvalidAgeRange));
    assert_eq!(book.add_category(1, "A".to_string(), 10, 11), Ok(()));
    assert_eq!(book.add_category(2, "A".to_string(), 1, 50), Err(category::Error::CategoryAlreadyExists));
    assert_eq!(
        book.add_category_requirement(5, 1, "x".to_string(), LevelName::AMATEUR),
        Err(category::Error::CategoryNotFound)
    );
    assert!(book.get_category_by_id(1).is_ok());
    assert_eq!(book.get_category_by_id(2).err(), Some(category::Error::CategoryNotFound));
}

#[test]
fn reservation_linkage_is_exclusive() {
    let mut club = club_with_court();
    let neither = CourtReservationCreation {
        id_court: COURT_X,
        start_reservation_datetime: T10,
        end_reservation_datetime: T10 + HOUR,
        id_training: None,
        id_tournament: None,
    };
    assert_eq!(club.courts.create_reservation(neither, 1), Err(court::Error::ReservationPurposeMissing));
    let both = CourtReservationCreation { id_training: Some(5), id_tournament: Some(6), ..neither };
    assert_eq!(club.courts.create_reservation(both, 1), Err(court::Error::ReservationPurposeConflict));
    let unknown_court = CourtReservationCreation { id_court: 999, id_training: Some(5), ..neither };
    assert_eq!(club.courts.create_reservation(unknown_court, 1), Err(court::Error::CourtNotFound));
    let inverted = CourtReservationCreation {
        start_reservation_datetime: T10 + HOUR,
        end_reservation_datetime: T10,
        id_training: Some(5),
        ..neither
    };
    assert_eq!(club.courts.create_reservation(inverted, 1), Err(court::Error::InvalidReservationTime));
    let inverted_without_event = CourtReservationCreation { id_training: None, ..inverted };
    assert_eq!(
        club.courts.create_reservation(inverted_without_event, 1),
        Err(court::Error::InvalidReservationTime)
    );
    let empty_with_both = CourtReservationCreation { end_reservation_datetime: T10, id_tournament: Some(6), ..both };
    assert_eq!(club.courts.create_reservation(empty_with_both, 1), Err(court::Error::InvalidReservationTime));
    assert!(club.courts.reservations.is_empty());
}

#[test]
fn court_booking_scenario() {
    let mut club = club_with_court();
    let t1 = club.create_training(training_payload(T10, T10 + HOUR), Some(COURT_X), 11, 501);
    assert!(t1.is_ok());
    let g1 = club.create_tournament(tournament_payload(T10 + HOUR / 2, T10 + 3 * HOUR / 2), Some(COURT_X), 21, 502);
    assert_eq!(g1.err(), Some(tournament::Error::CourtServiceError(court::Error::CourtUnavailable)));
    let g1 = club.create_tournament(tournament_payload(T10 + HOUR, T10 + 2 * HOUR), Some(COURT_X), 21, 502);
    assert!(g1.is_ok());
    assert_eq!(club.courts.reservations.len(), 2);
}

#[test]
fn availability_can_exclude_a_reservation() {
    let mut club = club_with_court();
    club.create_training(training_payload(T10, T10 + HOUR), Some(COURT_X), 11, 501).unwrap();
    assert!(!club.courts.is_court_available(COURT_X, T10, T10 + HOUR, None));
    assert!(club.courts.is_court_available(COURT_X, T10, T10 + HOUR, Some(501)));
    assert!(club.courts.is_court_available(COURT_X, T10 + HOUR, T10 + 2 * HOUR, None));
    assert!(club.courts.is_court_available(7, T10, T10 + HOUR, None));
}

#[test]
fn refused_reservation_rolls_back_the_event() {
    let mut club = club_with_court();
    club.create_training(training_payload(T10, T10 + HOUR), Some(COURT_X), 11, 501).unwrap();
    let r = club.create_tournament(tournament_payload(T10, T10 + HOUR), Some(COURT_X), 21, 502);
    assert_eq!(r.err(), Some(tournament::Error::CourtServiceError(court::Error::CourtUnavailable)));
    assert_eq!(club.get_tournament(21).err(), Some(tournament::Error::TournamentNotFound));
    assert!(club.tournaments.is_empty());
    let r = club.create_training(training_payload(T10, T10 + HOUR), Some(COURT_X), 12, 503);
    assert_eq!(r.err(), Some(training::Error::CourtServiceError(court::Error::CourtUnavailable)));
    assert_eq!(club.get_training(12).err(), Some(training::Error::TrainingNotFound));
    assert_eq!(club.trainings.len(), 1);
    assert_eq!(club.courts.reservations.len(), 1);
}

#[test]
fn event_duration_bounds() {
    assert!(is_valid_event_window(0, 600));
    assert!(!is_valid_event_window(0, 599));
    assert!(is_valid_event_window(0, 5 * HOUR));
    assert!(!is_valid_event_window(0, 5 * HOUR + 1));
    assert!(!is_valid_event_window(100, 100));
    let mut club = club_with_court();
    assert!(club.create_tournament(tournament_payload(T10, T10 + 600), None, 1, 2).is_ok());
    assert_eq!(
        club.create_tournament(tournament_payload(T10, T10 + 599), None, 3, 4).err(),
        Some(tournament::Error::InvalidDates)
    );
    assert!(club.create_tournament(tournament_payload(T10, T10 + 5 * HOUR), None, 5, 6).is_ok());
    assert_eq!(
        club.create_tournament(tournament_payload(T10, T10 + 5 * HOUR + 1), None, 7, 8).err(),
        Some(tournament::Error::InvalidDates)
    );
    assert_eq!(
        club.create_training(training_payload(T10, T10 + 599), None, 9, 10).err(),
        Some(training::Error::InvalidDates)
    );
}

#[test]
fn training_needs_a_trainer_and_a_category() {
    let mut club = club_with_court();
    let mut p = training_payload(T10, T10 + HOUR);
    p.trainer_id = 78;
    assert_eq!(
        club.create_training(p, None, 1, 2).err(),
        Some(training::Error::UserServiceError(club_scheduler::user::Error::UserIdDontExist))
    );
    let mut p = training_payload(T10, T10 + HOUR);
    p.trainer_id = 79;
    assert_eq!(club.create_training(p, None, 1, 2).err(), Some(training::Error::UserIsNotTrainer));
    let mut p = training_payload(T10, T10 + HOUR);
    p.id_category = 404;
    assert_eq!(
        club.create_training(p, None, 1, 2).err(),
        Some(training::Error::CategoryServiceError(category::Error::CategoryNotFound))
    );
    assert!(club.trainings.is_empty());
}

#[test]
fn update_moves_the_reservation() {
    let mut club = club_with_court();
    club.create_tournament(tournament_payload(T10, T10 + HOUR), Some(COURT_X), 21, 501).unwrap();
    let moved = club.update_tournament(21, tournament_payload(T10 + 2 * HOUR, T10 + 3 * HOUR), Some(COURT_X), 502).unwrap();
    assert_eq!(moved.start_datetime, T10 + 2 * HOUR);
    assert_eq!(club.courts.reservations.len(), 1);
    assert_eq!(club.courts.reservations[0].id_court_reservation, 502);
    assert_eq!(club.courts.reservations[0].start_reservation_datetime, T10 + 2 * HOUR);
    club.update_tournament(21, tournament_payload(T10 + 2 * HOUR, T10 + 3 * HOUR), None, 503).unwrap();
    assert!(club.courts.get_reservation_for_event(EventKind::Tournament, 21).is_none());
    assert_eq!(
        club.update_tournament(99, tournament_payload(T10, T10 + HOUR), None, 504).err(),
        Some(tournament::Error::TournamentNotFound)
    );
}

#[test]
fn update_refused_by_court_keeps_the_event() {
    let mut club = club_with_court();
    club.create_training(training_payload(T10, T10 + HOUR), Some(COURT_X), 11, 501).unwrap();
    club.create_tournament(tournament_payload(T10 + 2 * HOUR, T10 + 3 * HOUR), None, 21, 502).unwrap();
    let r = club.update_tournament(21, tournament_payload(T10, T10 + HOUR), Some(COURT_X), 503);
    assert_eq!(r.err(), Some(tournament::Error::CourtServiceError(court::Error::CourtUnavailable)));
    assert_eq!(club.get_tournament(21).unwrap().start_datetime, T10 + 2 * HOUR);
    let r = club.update_training(11, training_payload(T10 + 4 * HOUR, T10 + 5 * HOUR), Some(COURT_X), 504);
    assert!(r.is_ok());
    assert_eq!(club.courts.reservations[0].start_reservation_datetime, T10 + 4 * HOUR);
}

#[test]
fn delete_releases_the_reservation() {
    let mut club = club_with_court();
    club.create_tournament(tournament_payload(T10, T10 + HOUR), Some(COURT_X), 21, 501).unwrap();
    club.create_training(training_payload(T10 + 2 * HOUR, T10 + 3 * HOUR), Some(COURT_X), 11, 502).unwrap();
    assert_eq!(club.delete_tournament(21), Ok(()));
    assert_eq!(club.courts.reservations.len(), 1);
    assert_eq!(club.delete_tournament(21), Err(tournament::Error::TournamentNotFound));
    assert_eq!(club.delete_training(11), Ok(()));
    assert!(club.courts.reservations.is_empty());
    assert_eq!(club.delete_training(11), Err(training::Error::TrainingNotFound));
}

#[test]
fn tournament_registration_and_attendance() {
    let mut club = club_with_court();
    club.create_tournament(tournament_payload(T10, T10 + HOUR), None, 21, 501).unwrap();
    let u: u128 = 9;
    assert_eq!(club.register_user(u, 21, 0, today()).err(), Some(tournament::Error::UserDoesNotMeetCategoryRequirements));
    club.categories.add_user_to_category(u, CAT, adult(), today()).unwrap();
    assert_eq!(club.register_user(u, 99, 0, today()).err(), Some(tournament::Error::TournamentNotFound));
    assert_eq!(club.register_user(u, 21, T10, today()).err(), Some(tournament::Error::InvalidRegistrationDate));
    assert!(club.register_user(u, 21, 0, today()).is_ok());
    assert_eq!(club.register_user(u, 21, 0, today()).err(), Some(tournament::Error::UserAlreadyRegistered));
    let req = TournamentAttendanceRequest { id_user: u, position: 1 };
    assert_eq!(club.record_attendance(req, 21, T10 - 1).err(), Some(tournament::Error::InvalidAssistanceDate));
    assert_eq!(club.record_attendance(req, 21, T10 + HOUR).err(), Some(tournament::Error::InvalidAssistanceDate));
    let stranger = TournamentAttendanceRequest { id_user: 8, position: 2 };
    assert_eq!(club.record_attendance(stranger, 21, T10 + 60).err(), Some(tournament::Error::UserNotRegistered));
    let zero = TournamentAttendanceRequest { id_user: u, position: 0 };
    assert_eq!(club.record_attendance(zero, 21, T10 + 60).err(), Some(tournament::Error::NegativePosition));
    let a = club.record_attendance(req, 21, T10).unwrap();
    assert_eq!(a.position, 1);
    assert_eq!(a.attendance_datetime, T10);
    assert_eq!(club.record_attendance(req, 21, T10 + 60).err(), Some(tournament::Error::AttendanceAlreadyRecorded));
}

#[test]
fn positions_are_unique() {
    let mut club = club_with_court();
    club.create_tournament(tournament_payload(T10, T10 + HOUR), None, 21, 501).unwrap();
    for u in [1u128, 2u128] {
        club.categories.add_user_to_category(u, CAT, adult(), today()).unwrap();
        club.register_user(u, 21, 0, today()).unwrap();
    }
    club.record_attendance(TournamentAttendanceRequest { id_user: 1, position: 1 }, 21, T10 + 1).unwrap();
    assert_eq!(
        club.record_attendance(TournamentAttendanceRequest { id_user: 2, position: 1 }, 21, T10 + 1).err(),
        Some(tournament::Error::PositionAlreadyTaken)
    );
    club.record_attendance(TournamentAttendanceRequest { id_user: 2, position: 2 }, 21, T10 + 1).unwrap();
    assert_eq!(club.update_position(21, 2, 1), Err(tournament::Error::PositionAlreadyTaken));
    assert_eq!(club.update_position(21, 2, 0), Err(tournament::Error::NegativePosition));
    assert_eq!(club.update_position(21, 3, 4), Err(tournament::Error::UserDidNotAttend));
    assert_eq!(club.update_position(21, 1, 1), Ok(()));
    assert_eq!(club.update_position(21, 2, 3), Ok(()));
    assert_eq!(club.tournament_attendance[1].position, 3);
    assert_eq!(club.update_position(22, 2, 3), Err(tournament::Error::TournamentNotFound));
}

#[test]
fn training_registration_rules() {
    let mut club = club_with_court();
    let mut p = training_payload(T10, T10 + HOUR);
    p.minimum_payment = 5000;
    club.create_training(p, None, 11, 501).unwrap();
    let u: u128 = 9;
    assert_eq!(
        club.register_user_for_training(u, 11, 0, today()).err(),
        Some(training::Error::UserDoesNotMeetCategoryRequirements)
    );
    club.categories.add_user_to_category(u, CAT, adult(), today()).unwrap();
    assert_eq!(club.register_user_for_training(u, 11, 0, today()).err(), Some(training::Error::TuitionRequired));
    club.tuitions.pay_tuition(u, 4999, 1, 0).unwrap();
    assert_eq!(club.register_user_for_training(u, 11, 0, today()).err(), Some(training::Error::TuitionRequired));
    club.tuitions.pay_tuition(u, 5000, 2, 0).unwrap();
    assert_eq!(
        club.register_user_for_training(u, 11, T10, today()).err(),
        Some(training::Error::InvalidRegistrationDate)
    );
    let g = club.register_user_for_training(u, 11, 0, today()).unwrap();
    assert!(!g.attended);
    assert_eq!(
        club.register_user_for_training(u, 11, 0, today()).err(),
        Some(training::Error::UserAlreadyRegistered)
    );
    assert_eq!(club.mark_attendance(11, 8, true, 5), Err(training::Error::UserNotRegistered));
    assert_eq!(club.mark_attendance(12, u, true, 5), Err(training::Error::TrainingNotFound));
    assert_eq!(club.mark_attendance(11, u, true, T10 + 5), Ok(()));
    assert!(club.training_registrations[0].attended);
    assert_eq!(club.training_registrations[0].attendance_datetime, Some(T10 + 5));
}

#[test]
fn courts_have_unique_names_and_delete_only_when_free() {
    let mut club = club_with_court();
    assert_eq!(club.courts.create_court(101, "Court X".to_string()), Err(court::Error::CourtNameExists));
    assert_eq!(club.courts.create_court(101, "Court Y".to_string()), Ok(()));
    club.create_tournament(tournament_payload(T10, T10 + HOUR), Some(COURT_X), 21, 501).unwrap();
    assert_eq!(club.courts.delete_court(COURT_X), Err(court::Error::ReservationExists));
    assert_eq!(club.courts.delete_court(555), Err(court::Error::CourtNotFound));
    assert_eq!(club.courts.delete_court(101), Ok(()));
    assert_eq!(club.courts.courts.len(), 1);
    assert_eq!(club.courts.courts[0].id_court, COURT_X);
    assert!(!club.courts.court_exists(101));
    assert!(club.courts.court_exists(COURT_X));
}

#[test]
fn category_updates_revalidate() {
    let mut book = CategoryBook::new();
    book.add_category(CAT, "Open".to_string(), 5, 80).unwrap();
    let blank = category::Category { id_category: CAT, name: "   ".to_string(), min_age: 5, max_age: 80 };
    assert_eq!(book.update_category(blank), Err(category::Error::MissingName));
    let inverted = category::Category { id_category: CAT, name: "Open".to_string(), min_age: 9, max_age: 9 };
    assert_eq!(book.update_category(inverted), Err(category::Error::InvalidAgeRange));
    let missing = category::Category { id_category: 77, name: "Other".to_string(), min_age: 1, max_age: 9 };
    assert_eq!(book.update_category(missing), Err(category::Error::CategoryNotFound));
    let renamed = category::Category { id_category: CAT, name: " Seniors ".to_string(), min_age: 40, max_age: 90 };
    assert_eq!(book.update_category(renamed), Ok(()));
    assert_eq!(book.get_category_by_id(CAT).unwrap().min_age, 40);
}

#[test]
fn eligible_events_follow_held_categories() {
    let mut club = club_with_court();
    club.categories.add_category(3, "Elite".to_string(), 5, 80).unwrap();
    club.create_tournament(tournament_payload(T10, T10 + HOUR), None, 21, 501).unwrap();
    let mut other = tournament_payload(T10, T10 + HOUR);
    other.id_category = 3;
    club.create_tournament(other, None, 22, 502).unwrap();
    club.create_training(training_payload(T10, T10 + HOUR), None, 11, 503).unwrap();
    let u: u128 = 9;
    assert!(club.get_eligible_tournaments(u).is_empty());
    club.categories.add_user_to_category(u, CAT, adult(), today()).unwrap();
    let open = club.get_eligible_tournaments(u);
    assert_eq!(open.len(), 1);
    assert_eq!(open[0].id_tournament, 21);
    let trainings = club.get_eligible_trainings(u);
    assert_eq!(trainings.len(), 1);
    assert_eq!(trainings[0].id_training, 11);
}

#[test]
fn registrations_and_attendance_can_be_withdrawn() {
    let mut club = club_with_court();
    club.create_tournament(tournament_payload(T10, T10 + HOUR), None, 21, 501).unwrap();
    club.create_training(training_payload(T10, T10 + HOUR), None, 11, 502).unwrap();
    let u: u128 = 9;
    club.categories.add_user_to_category(u, CAT, adult(), today()).unwrap();
    club.register_user(u, 21, 0, today()).unwrap();
    club.register_user_for_training(u, 11, 0, today()).unwrap();
    club.record_attendance(TournamentAttendanceRequest { id_user: u, position: 1 }, 21, T10).unwrap();
    assert_eq!(club.delete_attendance(21, 8), Err(tournament::Error::UserDidNotAttend));
    assert_eq!(club.delete_attendance(21, u), Ok(()));
    assert!(club.tournament_attendance.is_empty());
    assert_eq!(club.delete_registration(22, u), Err(tournament::Error::TournamentNotFound));
    assert_eq!(club.delete_registration(21, u), Ok(()));
    assert_eq!(club.delete_registration(21, u), Err(tournament::Error::UserNotRegistered));
    assert_eq!(club.delete_training_registration(11, 8), Err(training::Error::RegistrationNotFound));
    assert_eq!(club.delete_training_registration(11, u), Ok(()));
    assert!(club.training_registrations.is_empty());
}

#[test]
fn trainings_by_trainer() {
    let mut club = club_with_court();
    club.create_training(training_payload(T10, T10 + HOUR), None, 11, 501).unwrap();
    let led = club.get_trainings_by_trainer(77).unwrap();
    assert_eq!(led.len(), 1);
    assert_eq!(led[0].id_training, 11);
    assert_eq!(club.get_trainings_by_trainer(79).err(), Some(training::Error::UserIsNotTrainer));
    assert_eq!(
        club.get_trainings_by_trainer(80).err(),
        Some(training::Error::UserServiceError(club_scheduler::user::Error::UserIdDontExist))
    );
}

#[test]
fn registration_requires_full_eligibility() {
    let mut club = club_with_court();
    club.categories.add_category(3, "Youth".to_string(), 5, 80).unwrap();
    club.categories.add_category(4, "Senior".to_string(), 5, 80).unwrap();
    club.categories.add_category_requirement(4, 3, "Youth at amateur".to_string(), LevelName::AMATEUR).unwrap();
    let mut p = tournament_payload(T10, T10 + HOUR);
    p.id_category = 4;
    club.create_tournament(p, None, 21, 501).unwrap();
    let u: u128 = 9;
    club.categories.add_user_to_category(u, 3, adult(), today()).unwrap();
    club.categories.update_user_category_level(u, 3, LevelName::AMATEUR).unwrap();
    club.categories.add_user_to_category(u, 4, adult(), today()).unwrap();
    club.categories.update_user_category_level(u, 3, LevelName::BEGGINER).unwrap();
    assert_eq!(
        club.register_user(u, 21, 0, today()).err(),
        Some(tournament::Error::CategoryServiceError(category::Error::InvalidRequirementLevel))
    );
    club.categories.update_user_category_level(u, 3, LevelName::AMATEUR).unwrap();
    let late = Date { year: 2090, month: 1, day: 1 };
    assert_eq!(
        club.register_user(u, 21, 0, late).err(),
        Some(tournament::Error::CategoryServiceError(category::Error::InvalidUserAge))
    );
    assert!(club.register_user(u, 21, 0, today()).is_ok());
    assert_eq!(
        club.categories.add_user_to_category(500, 4, adult(), today()),
        Err(category::Error::UserDoesNotMeetRequirements)
    );
}

#[test]
fn unknown_user_cannot_register() {
    let mut club = club_with_court();
    club.create_tournament(tournament_payload(T10, T10 + HOUR), None, 21, 501).unwrap();
    club.create_training(training_payload(T10, T10 + HOUR), None, 11, 502).unwrap();
    club.categories.add_user_to_category(600, CAT, adult(), today()).unwrap();
    assert_eq!(
        club.register_user(600, 21, 0, today()).err(),
        Some(tournament::Error::UserServiceError(club_scheduler::user::Error::UserIdDontExist))
    );
    assert_eq!(
        club.register_user_for_training(600, 11, 0, today()).err(),
        Some(training::Error::UserServiceError(club_scheduler::user::Error::UserIdDontExist))
    );
}

#[test]
fn event_ids_are_unique() {
    let mut club = club_with_court();
    club.create_tournament(tournament_payload(T10, T10 + HOUR), None, 21, 501).unwrap();
    assert_eq!(
        club.create_tournament(tournament_payload(T10, T10 + HOUR), None, 21, 502).err(),
        Some(tournament::Error::TournamentAlreadyExists)
    );
    club.create_training(training_payload(T10, T10 + HOUR), None, 11, 503).unwrap();
    assert_eq!(
        club.create_training(training_payload(T10, T10 + HOUR), None, 11, 504).err(),
        Some(training::Error::TrainingAlreadyExists)
    );
    assert_eq!(club.tournaments.len(), 1);
    assert_eq!(club.trainings.len(), 1);
    let fresh = club.create_tournament_with_new_id(tournament_payload(T10, T10 + HOUR), None).unwrap();
    assert_ne!(fresh.id_tournament, 21);
    assert_eq!(club.tournaments.len(), 2);
}

#[test]
fn unchanged_court_and_window_keep_the_reservation() {
    let mut club = club_with_court();
    club.create_training(training_payload(T10, T10 + HOUR), None, 11, 501).unwrap();
    club.update_training(11, training_payload(T10, T10 + HOUR), Some(COURT_X), 502).unwrap();
    assert_eq!(club.courts.reservations[0].id_court_reservation, 502);
    let mut renamed = training_payload(T10, T10 + HOUR);
    renamed.name = "Footwork".to_string();
    let t = club.update_training(11, renamed, Some(COURT_X), 503).unwrap();
    assert_eq!(t.name, "Footwork");
    assert_eq!(club.courts.reservations.len(), 1);
    assert_eq!(club.courts.reservations[0].id_court_reservation, 502);
}

#[test]
fn own_reservation_does_not_block_a_move() {
    let mut club = club_with_court();
    club.create_tournament(tournament_payload(T10, T10 + HOUR), Some(COURT_X), 21, 501).unwrap();
    let t = club.update_tournament(21, tournament_payload(T10 + HOUR / 2, T10 + 3 * HOUR / 2), Some(COURT_X), 502).unwrap();
    assert_eq!(t.start_datetime, T10 + HOUR / 2);
    assert_eq!(club.courts.reservations.len(), 1);
    assert_eq!(club.courts.reservations[0].id_court_reservation, 502);
    assert_eq!(club.courts.reservations[0].id_tournament, Some(21));
}

#[test]
fn failing_court_step_names_its_error() {
    let mut club = club_with_court();
    club.create_training(training_payload(T10 + 4 * HOUR, T10 + 5 * HOUR), None, 11, 501).unwrap();
    let r = club.update_training(11, training_payload(T10, T10 + HOUR), Some(999), 502);
    assert_eq!(r.err(), Some(training::Error::CourtServiceError(court::Error::CourtNotFound)));
    assert_eq!(club.get_training(11).unwrap().start_datetime, T10 + 4 * HOUR);
    club.create_tournament(tournament_payload(T10, T10 + HOUR), Some(COURT_X), 21, 503).unwrap();
    let r = club.update_training(11, training_payload(T10, T10 + HOUR), Some(COURT_X), 504);
    assert_eq!(r.err(), Some(training::Error::CourtServiceError(court::Error::CourtUnavailable)));
    assert_eq!(club.get_training(11).unwrap().start_datetime, T10 + 4 * HOUR);
}

#[test]
fn refused_move_keeps_the_old_reservation() {
    let mut club = club_with_court();
    club.courts.create_court(101, "Court Y".to_string()).unwrap();
    club.create_training(training_payload(T10, T10 + HOUR), None, 11, 501).unwrap();
    club.update_training(11, training_payload(T10, T10 + HOUR), Some(COURT_X), 502).unwrap();
    club.create_tournament(tournament_payload(T10 + 2 * HOUR, T10 + 3 * HOUR), Some(101), 21, 503).unwrap();
    let r = club.update_training(11, training_payload(T10 + 2 * HOUR, T10 + 3 * HOUR), Some(101), 504);
    assert_eq!(r.err(), Some(training::Error::CourtServiceError(court::Error::CourtUnavailable)));
    let kept = club.courts.get_reservation_for_event(EventKind::Training, 11).unwrap();
    assert_eq!(kept.id_court_reservation, 502);
    assert_eq!(kept.id_court, COURT_X);
    assert_eq!(kept.start_reservation_datetime, T10);
    assert_eq!(club.courts.reservations.len(), 2);
    assert_eq!(club.get_training(11).unwrap().start_datetime, T10);
    let r = club.update_tournament(21, tournament_payload(T10, T10 + HOUR), Some(COURT_X), 505);
    assert_eq!(r.err(), Some(tournament::Error::CourtServiceError(court::Error::CourtUnavailable)));
    assert_eq!(club.courts.get_reservation_for_event(EventKind::Tournament, 21).unwrap().id_court, 101);
}

#[test]
fn joining_looks_up_the_category_then_the_user() {
    let mut club = club_with_court();
    assert_eq!(club.join_category(600, 404, today()), Err(category::Error::CategoryNotFound));
    assert_eq!(
        club.join_category(600, CAT, today()),
        Err(category::Error::UserServiceError(club_scheduler::user::Error::UserIdDontExist))
    );
    assert_eq!(club.check_user_eligibility(9, CAT, today()), Ok(()));
    assert_eq!(club.join_category(9, CAT, today()), Ok(()));
    assert_eq!(club.join_category(9, CAT, today()), Err(category::Error::UserAlreadyHasCategory));
    assert_eq!(club.check_user_eligibility(9, 404, today()), Err(category::Error::CategoryNotFound));
}

#[test]
fn trainings_can_draw_their_identity() {
    let mut club = club_with_court();
    let t = club.create_training_with_new_id(training_payload(T10, T10 + HOUR), Some(COURT_X)).unwrap();
    assert_eq!(club.trainings.len(), 1);
    assert_eq!(club.courts.get_reservation_for_event(EventKind::Training, t.id_training).unwrap().id_court, COURT_X);
    assert_eq!(
        club.create_training_with_new_id(training_payload(T10, T10 + HOUR), Some(COURT_X)).err(),
        Some(training::Error::CourtServiceError(court::Error::CourtUnavailable))
    );
    assert_eq!(club.trainings.len(), 1);
}
