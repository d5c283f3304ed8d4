use club_scheduler::migration::get_migration;
use club_scheduler::user::{check_password, validate_birth_date, years_since, Date, Error};

const STORED: &str = "$2a$04$UuTkLRZZ6QofpDOlMz32MuuxEHA43WOemOYHPz6.SjsVsyO1tDU96";

#[test]
fn age_counts_whole_years() {
    let birth = Date { year: 2000, month: 6, day: 15 };
    assert_eq!(years_since(Date { year: 2020, month: 6, day: 14 }, birth), 19);
    assert_eq!(years_since(Date { year: 2020, month: 6, day: 15 }, birth), 20);
    assert_eq!(years_since(Date { year: 1999, month: 1, day: 1 }, birth), 0);
}

#[test]
fn birth_date_must_give_an_age_from_7_to_100() {
    let today = Date { year: 2024, month: 3, day: 10 };
    assert_eq!(validate_birth_date(Date { year: 2017, month: 3, day: 10 }, today), Ok(()));
    assert!(matches!(
        validate_birth_date(Date { year: 2017, month: 3, day: 11 }, today),
        Err(Error::InvalidBirthDate(_))
    ));
    assert_eq!(validate_birth_date(Date { year: 1924, month: 3, day: 11 }, today), Ok(()));
    assert!(matches!(
        validate_birth_date(Date { year: 1923, month: 3, day: 10 }, today),
        Err(Error::InvalidBirthDate(_))
    ));
}

#[test]
fn password_check_uses_the_stored_hash() {
    assert_eq!(check_password("password", STORED), Ok(()));
    assert_eq!(check_password("wrong", STORED), Err(Error::InvalidPassword));
    assert!(matches!(check_password("password", "not a hash"), Err(Error::ErrorHashing(_))));
}

#[test]
fn migration_creates_the_tables() {
    let sql = get_migration();
    assert!(sql.contains("CREATE TABLE category"));
    assert!(sql.contains("CREATE TABLE user_rol"));
}

use club_scheduler::request::{self, RequestBook};
use club_scheduler::tuition::{self, TuitionBook};
use club_scheduler::user::{IdType, URol, UserBook, UserCreation, UserLogInInfo};

fn creation(email: &str, phone: &str, doc: &str) -> UserCreation {
    UserCreation {
        first_name: "Ana".to_string(),
        last_name: "Ruiz".to_string(),
        birth_date: Date { year: 1995, month: 2, day: 3 },
        email: email.to_string(),
        phone_number: phone.to_string(),
        country_code: "+57".to_string(),
        password: "secret".to_string(),
        identification_number: doc.to_string(),
        identification_type: IdType::CC,
    }
}

fn book_with_stored_user() -> UserBook {
    let mut book = UserBook::new();
    book.users.push(club_scheduler::user::User {
        id_user: 5,
        first_name: "Ana".to_string(),
        last_name: "Ruiz".to_string(),
        birth_date: Date { year: 1995, month: 2, day: 3 },
        registration_date: 0,
        email: "ana@example.com".to_string(),
        email_verified: false,
        phone_number: "555-1234".to_string(),
        country_code: "+57".to_string(),
        password: STORED.to_string(),
        identification_number: "ID-1".to_string(),
        identification_type: IdType::CC,
        user_rol: URol::TRAINER,
    });
    book
}

#[test]
fn registration_refuses_taken_contacts() {
    let today = Date { year: 2024, month: 3, day: 10 };
    let mut book = book_with_stored_user();
    assert_eq!(
        book.register_user(creation("ana@example.com", "1", "2"), 6, 0, today).err(),
        Some(Error::EmailAlreadyExists)
    );
    assert_eq!(
        book.register_user(creation("b@example.com", "555-1234", "2"), 6, 0, today).err(),
        Some(Error::PhoneAlreadyExists)
    );
    assert_eq!(
        book.register_user(creation("b@example.com", "1", "ID-1"), 6, 0, today).err(),
        Some(Error::DocumentAlreadyExists)
    );
    let mut young = creation("c@example.com", "2", "3");
    young.birth_date = Date { year: 2020, month: 1, day: 1 };
    assert!(matches!(book.register_user(young, 6, 0, today), Err(Error::InvalidBirthDate(_))));
    assert_eq!(book.users.len(), 1);
}

#[test]
fn login_identifies_by_phone_then_email() {
    let book = book_with_stored_user();
    assert_eq!(book.identify(&"555-1234".to_string()), Ok(5));
    assert_eq!(book.identify(&"ana@example.com".to_string()), Ok(5));
    assert_eq!(book.identify(&"nobody".to_string()), Err(Error::InvalidIdentifier));
    let ok = UserLogInInfo { identifier: "ana@example.com".to_string(), password: "password".to_string() };
    let r = book.log_in_user(&ok).unwrap();
    assert_eq!(r.user_id, 5);
    assert_eq!(r.user_rol, URol::TRAINER);
    let bad = UserLogInInfo { identifier: "555-1234".to_string(), password: "wrong".to_string() };
    assert_eq!(book.log_in_user(&bad).err(), Some(Error::InvalidPassword));
    let unknown = UserLogInInfo { identifier: "x".to_string(), password: "password".to_string() };
    assert_eq!(book.log_in_user(&unknown).err(), Some(Error::InvalidIdentifier));
}

#[test]
fn role_changes_apply_to_existing_users() {
    let mut book = book_with_stored_user();
    assert_eq!(book.role_of(5), Some(URol::TRAINER));
    assert_eq!(book.update_user_role(5, URol::ADMIN), Ok(()));
    assert_eq!(book.role_of(5), Some(URol::ADMIN));
    assert_eq!(book.update_user_role(6, URol::ADMIN), Err(Error::UserIdDontExist));
    assert_eq!(book.role_of(6), None);
}

#[test]
fn requests_are_decided_once_by_someone_else() {
    let mut book = RequestBook::new();
    book.create_request(1, 10, "promote".to_string(), "needed".to_string());
    assert_eq!(book.complete_request(2, 11, true), Err(request::Error::RequestNotFound));
    assert_eq!(book.complete_request(1, 10, true), Err(request::Error::SelfApprovalNotAllowed));
    assert_eq!(book.complete_request(1, 11, false), Ok(()));
    assert_eq!(book.requests[0].approved, Some(false));
    assert_eq!(book.requests[0].approver_id, Some(11));
    assert_eq!(book.complete_request(1, 12, true), Err(request::Error::RequestAlreadyCompleted));
}

#[test]
fn tuition_is_active_for_thirty_days() {
    let mut book = TuitionBook::new();
    let day: i64 = 86400;
    assert_eq!(book.pay_tuition(1, 0, 7, 0).err(), Some(tuition::Error::InvalidAmount));
    let t = book.pay_tuition(1, 10000, 7, 100 * day).unwrap();
    assert_eq!(t.amount, 10000);
    assert!(book.has_active_tuition(1, 100 * day));
    assert!(book.has_active_tuition_with_amount(1, 10000, 130 * day));
    assert!(!book.has_active_tuition_with_amount(1, 10001, 100 * day));
    assert!(!book.has_active_tuition(1, 130 * day + 1));
    assert!(!book.has_active_tuition(2, 100 * day));
}

#[test]
fn user_updates_keep_contacts_unique() {
    let today = Date { year: 2024, month: 3, day: 10 };
    let mut book = book_with_stored_user();
    book.users.push(club_scheduler::user::User {
        id_user: 6,
        first_name: "Luis".to_string(),
        last_name: "Mora".to_string(),
        birth_date: Date { year: 1990, month: 1, day: 1 },
        registration_date: 0,
        email: "luis@example.com".to_string(),
        email_verified: false,
        phone_number: "555-9999".to_string(),
        country_code: "+57".to_string(),
        password: STORED.to_string(),
        identification_number: "ID-2".to_string(),
        identification_type: IdType::CC,
        user_rol: URol::USER,
    });
    assert_eq!(book.update_user(7, creation("x@example.com", "1", "3"), today), Err(Error::UserIdDontExist));
    assert_eq!(
        book.update_user(6, creation("ana@example.com", "555-9999", "ID-2"), today),
        Err(Error::EmailAlreadyExists)
    );
    assert_eq!(
        book.update_user(6, creation("luis@example.com", "555-1234", "ID-2"), today),
        Err(Error::PhoneAlreadyExists)
    );
    assert_eq!(
        book.update_user(6, creation("luis@example.com", "555-9999", "ID-1"), today),
        Err(Error::DocumentAlreadyExists)
    );
    let mut keep_password = creation("luis.m@example.com", "555-9999", "ID-2");
    keep_password.password = String::new();
    assert_eq!(book.update_user(6, keep_password, today), Ok(()));
    assert_eq!(book.users[1].email, "luis.m@example.com");
    assert_eq!(book.users[1].password, STORED);
    assert_eq!(book.users[1].user_rol, URol::USER);
}

#[test]
fn registered_password_checks_out() {
    let mut book = UserBook::new();
    let today = Date { year: 2024, month: 3, day: 10 };
    book.register_user(creation("n@example.com", "77", "D-7"), 9, 0, today).unwrap();
    let login = UserLogInInfo { identifier: "n@example.com".to_string(), password: "secret".to_string() };
    assert_eq!(book.log_in_user(&login).unwrap().user_id, 9);
}
