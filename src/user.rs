use vstd::prelude::*;

verus! {

/// Failures of the user subsystem.
#[derive(Clone, Debug, PartialEq, Eq)]
pub enum Error {
    UnknownDatabaseError(String),
    UserIdDontExist,
    ErrorHashing(String),
    ErrorVerificationHash(String),
    InvalidPassword,
    EmailAlreadyExists,
    PhoneAlreadyExists,
    DocumentAlreadyExists,
    InvalidIdentifier,
    InvalidBirthDate(String),
}

/// The youngest age at which a user may register.
pub const MIN_USER_AGE: i64 = 7;
/// The oldest age at which a user may register.
pub const MAX_USER_AGE: i64 = 100;

/// A calendar date.
#[derive(Clone, Copy, Debug, PartialEq, Eq, Structural)]
pub struct Date {
    pub year: i32,
    pub month: u8,
    pub day: u8,
}

impl Date {
    pub open spec fn wf(self) -> bool {
        1 <= self.month <= 12 && 1 <= self.day <= 31
    }
}

/// Whole years from `birth` to `today`; negative when `birth` lies after `today`.
pub open spec fn signed_age(today: Date, birth: Date) -> int {
    let before_birthday = today.month < birth.month
        || (today.month == birth.month && today.day < birth.day);
    (today.year - birth.year) - if before_birthday { 1int } else { 0int }
}

/// The age used by eligibility checks: whole years, and 0 for a birth after `today`.
pub open spec fn age_on(today: Date, birth: Date) -> int {
    if signed_age(today, birth) >= 0 { signed_age(today, birth) } else { 0 }
}

/// Whole years elapsed from `birth` to `today`, or 0 when `birth` lies after `today`.
pub fn years_since(today: Date, birth: Date) -> (r: u32)
    ensures
        r as int == age_on(today, birth),
{
    let mut years: i64 = (today.year as i64) - (birth.year as i64);
    if today.month < birth.month || (today.month == birth.month && today.day < birth.day) {
        years = years - 1;
    }
    if years >= 0 {
        years as u32
    } else {
        0
    }
}

/// Checks that a user born on `birth` is between 7 and 100 years old on `today`.
pub fn validate_birth_date(birth: Date, today: Date) -> (r: Result<(), Error>)
    ensures
        r is Ok <==> MIN_USER_AGE <= signed_age(today, birth) <= MAX_USER_AGE,
        r matches Err(e) ==> e is InvalidBirthDate,
{
    let mut age: i64 = (today.year as i64) - (birth.year as i64);
    if today.month < birth.month || (today.month == birth.month && today.day < birth.day) {
        age = age - 1;
    }
    if age < MIN_USER_AGE {
        return Err(Error::InvalidBirthDate("User must be at least 7 years old.".to_string()));
    }
    if age > MAX_USER_AGE {
        return Err(Error::InvalidBirthDate("User cannot be older than 100 years.".to_string()));
    }
    Ok(())
}

/// Checks that a user born on `birth` is between 7 and 100 years old today.
pub fn validate_birth_date_today(birth: Date) -> (r: Result<(), Error>)
    ensures
        exists|t: Date| t.wf() && (r is Ok <==> MIN_USER_AGE <= signed_age(t, birth) <= MAX_USER_AGE),
        r matches Err(e) ==> e is InvalidBirthDate,
{
    validate_birth_date(birth, crate::clock::today())
}

/// The kind of an identity document.
#[allow(clippy::upper_case_acronyms)]
#[derive(Clone, Copy, Debug, Default, PartialEq, Eq, Structural)]
pub enum IdType {
    #[default]
    CC,
}

/// The role of a user.
#[allow(clippy::upper_case_acronyms)]
#[derive(Clone, Copy, Debug, Default, PartialEq, Eq, Structural)]
pub enum URol {
    #[default]
    USER,
    ADMIN,
    TRAINER,
}

/// Credentials given at log-in: an email or a phone number, and a password.
#[derive(Clone, Debug, Default)]
pub struct UserLogInInfo {
    pub identifier: String,
    pub password: String,
}

/// An identity document.
#[derive(Debug, Default)]
pub struct DocInfo {
    pub identification_number: String,
    pub identification_type: IdType,
}

/// A role, as handed to a role change.
#[derive(Clone, Copy, Debug, PartialEq, Eq, Structural)]
pub struct UserRole {
    pub user_rol: URol,
}

/// A document kind, as handed to a lookup.
#[derive(Clone, Copy, Debug, PartialEq, Eq, Structural)]
pub struct IdentificationInfo {
    pub identification_type: IdType,
}

/// Hashes passwords and checks a password against a stored hash.
pub trait PasswordHasher {
    fn hash(&self, content: &str) -> Result<String, Error>;

    fn verify(&self, original: &str, hashed: &str) -> Result<bool, Error>;
}

/// What bcrypt's check of `password` against `hash` gives: `None` for a malformed hash.
pub uninterp spec fn bcrypt_verdict(password: Seq<char>, hash: Seq<char>) -> Option<bool>;

/// Relies on bcrypt::hash at the default cost: a fresh random salt each call, so the
/// digest itself is not stated, but bcrypt::verify accepts the password against it.
#[verifier::external_body]
fn bcrypt_hash(content: &str) -> (r: Result<String, Error>)
    ensures
        r matches Ok(h) ==> bcrypt_verdict(content@, h@) == Some(true),
        r matches Err(e) ==> e is ErrorHashing,
{
    bcrypt::hash(content, bcrypt::DEFAULT_COST).map_err(|err| Error::ErrorHashing(format!("{err}")))
}

/// Relies on bcrypt::verify: the answer depends on the password and the hash alone,
/// and a hash that cannot be parsed gives an error.
#[verifier::external_body]
fn bcrypt_verify(original: &str, hashed: &str) -> (r: Result<bool, Error>)
    ensures
        r matches Ok(b) ==> bcrypt_verdict(original@, hashed@) == Some(b),
        r matches Err(e) ==> bcrypt_verdict(original@, hashed@) is None && e is ErrorHashing,
{
    bcrypt::verify(original, hashed).map_err(|err| Error::ErrorHashing(format!("{err}")))
}

/// A password hasher backed by bcrypt.
pub struct BcryptHasher;

impl PasswordHasher for BcryptHasher {
    fn hash(&self, content: &str) -> Result<String, Error> {
        bcrypt_hash(content)
    }

    fn verify(&self, original: &str, hashed: &str) -> Result<bool, Error> {
        bcrypt_verify(original, hashed)
    }
}

/// The log-in decision once the stored hash has been checked: a wrong password is refused.
pub fn password_verdict(checked: Result<bool, Error>) -> (r: Result<(), Error>)
    ensures
        checked matches Ok(b) ==> (r is Ok <==> b),
        checked matches Ok(b) && !b ==> r == Err::<(), Error>(Error::InvalidPassword),
        checked matches Err(e) ==> r == Err::<(), Error>(e),
{
    match checked {
        Ok(true) => Ok(()),
        Ok(false) => Err(Error::InvalidPassword),
        Err(e) => Err(e),
    }
}

/// Checks `password` against the stored `hashed` password with bcrypt.
pub fn check_password(password: &str, hashed: &str) -> (r: Result<(), Error>)
    ensures
        r is Ok <==> bcrypt_verdict(password@, hashed@) == Some(true),
        bcrypt_verdict(password@, hashed@) == Some(false) ==> r == Err::<(), Error>(Error::InvalidPassword),
{
    password_verdict(bcrypt_verify(password, hashed))
}

} // verus!

verus! {

/// A registered user; `password` holds the bcrypt hash of their password.
#[derive(Debug)]
pub struct User {
    pub id_user: u128,
    pub first_name: String,
    pub last_name: String,
    pub birth_date: Date,
    pub registration_date: i64,
    pub email: String,
    pub email_verified: bool,
    pub phone_number: String,
    pub country_code: String,
    pub password: String,
    pub identification_number: String,
    pub identification_type: IdType,
    pub user_rol: URol,
}

/// What a caller gives to register a user; `password` is in clear.
#[derive(Debug)]
pub struct UserCreation {
    pub first_name: String,
    pub last_name: String,
    pub birth_date: Date,
    pub email: String,
    pub phone_number: String,
    pub country_code: String,
    pub password: String,
    pub identification_number: String,
    pub identification_type: IdType,
}

/// Who logged in, and with which role.
#[derive(Clone, Copy, Debug, PartialEq, Eq, Structural)]
pub struct LogInResponse {
    pub user_id: u128,
    pub user_rol: URol,
}

pub open spec fn is_user(id: u128) -> spec_fn(User) -> bool {
    |u: User| u.id_user == id
}

pub open spec fn has_email(e: Seq<char>) -> spec_fn(User) -> bool {
    |u: User| u.email@ == e
}

pub open spec fn has_phone(p: Seq<char>) -> spec_fn(User) -> bool {
    |u: User| u.phone_number@ == p
}

pub open spec fn has_document(n: Seq<char>, t: IdType) -> spec_fn(User) -> bool {
    |u: User| u.identification_number@ == n && u.identification_type == t
}

/// The registered users.
pub struct UserBook {
    pub users: Vec<User>,
}

impl UserBook {
    pub open spec fn user_at(self, id: u128) -> Option<int> {
        crate::event::first_index(self.users@, is_user(id))
    }

    pub open spec fn find(self, p: spec_fn(User) -> bool) -> Option<int> {
        crate::event::first_index(self.users@, p)
    }

    /// The user that the log-in identifier names: by phone number first, then by email.
    pub open spec fn identified(self, identifier: Seq<char>) -> Option<int> {
        match self.find(has_phone(identifier)) {
            Some(i) => Some(i),
            None => self.find(has_email(identifier)),
        }
    }

    /// Why a registration with these contact details is refused, if it is.
    pub open spec fn registration_refusal(self, c: UserCreation) -> Option<Error> {
        if self.find(has_email(c.email@)) is Some {
            Some(Error::EmailAlreadyExists)
        } else if self.find(has_phone(c.phone_number@)) is Some {
            Some(Error::PhoneAlreadyExists)
        } else if self.find(has_document(c.identification_number@, c.identification_type)) is Some {
            Some(Error::DocumentAlreadyExists)
        } else {
            None
        }
    }

    /// Why an update of the user at index `i` with these details is refused, if it is:
    /// a changed email, phone number or document must not belong to a stored user.
    pub open spec fn update_refusal(self, i: int, c: UserCreation) -> Option<Error> {
        let u = self.users@[i];
        if u.email@ != c.email@ && self.find(has_email(c.email@)) is Some {
            Some(Error::EmailAlreadyExists)
        } else if u.phone_number@ != c.phone_number@ && self.find(has_phone(c.phone_number@)) is Some {
            Some(Error::PhoneAlreadyExists)
        } else if (u.identification_number@ != c.identification_number@ || u.identification_type != c.identification_type)
            && self.find(has_document(c.identification_number@, c.identification_type)) is Some {
            Some(Error::DocumentAlreadyExists)
        } else {
            None
        }
    }

    /// The stored hash of the user that `identifier` names.
    pub open spec fn stored_hash(self, identifier: Seq<char>) -> Seq<char> {
        self.users@[self.identified(identifier).unwrap()].password@
    }

    /// The log-in answer for the user that `identifier` names.
    pub open spec fn login_of(self, identifier: Seq<char>) -> LogInResponse {
        let u = self.users@[self.identified(identifier).unwrap()];
        LogInResponse { user_id: u.id_user, user_rol: u.user_rol }
    }

    pub fn new() -> (r: UserBook)
        ensures
            r.users@.len() == 0,
    {
        UserBook { users: Vec::new() }
    }

    fn index_by_id(&self, id: u128) -> (r: Option<usize>)
        ensures
            r matches Some(i) ==> self.user_at(id) == Some(i as int) && i < self.users@.len(),
            r is None ==> self.user_at(id) is None,
    {
        let mut i: usize = 0;
        while i < self.users.len()
            invariant
                i <= self.users@.len(),
                crate::event::first_index(self.users@.subrange(0, i as int), is_user(id)) is None,
            decreases self.users@.len() - i,
        {
            proof { crate::event::lemma_first_index_step(self.users@, is_user(id), i as int); }
            if self.users[i].id_user == id {
                return Some(i);
            }
            i = i + 1;
        }
        proof { crate::event::lemma_first_index_end(self.users@, is_user(id)); }
        None
    }

    fn index_by_email(&self, email: &String) -> (r: Option<usize>)
        ensures
            r matches Some(i) ==> self.find(has_email(email@)) == Some(i as int) && i < self.users@.len(),
            r is None ==> self.find(has_email(email@)) is None,
    {
        let mut i: usize = 0;
        while i < self.users.len()
            invariant
                i <= self.users@.len(),
                crate::event::first_index(self.users@.subrange(0, i as int), has_email(email@)) is None,
            decreases self.users@.len() - i,
        {
            proof { crate::event::lemma_first_index_step(self.users@, has_email(email@), i as int); }
            if self.users[i].email == *email {
                return Some(i);
            }
            i = i + 1;
        }
        proof { crate::event::lemma_first_index_end(self.users@, has_email(email@)); }
        None
    }

    fn index_by_phone(&self, phone: &String) -> (r: Option<usize>)
        ensures
            r matches Some(i) ==> self.find(has_phone(phone@)) == Some(i as int) && i < self.users@.len(),
            r is None ==> self.find(has_phone(phone@)) is None,
    {
        let mut i: usize = 0;
        while i < self.users.len()
            invariant
                i <= self.users@.len(),
                crate::event::first_index(self.users@.subrange(0, i as int), has_phone(phone@)) is None,
            decreases self.users@.len() - i,
        {
            proof { crate::event::lemma_first_index_step(self.users@, has_phone(phone@), i as int); }
            if self.users[i].phone_number == *phone {
                return Some(i);
            }
            i = i + 1;
        }
        proof { crate::event::lemma_first_index_end(self.users@, has_phone(phone@)); }
        None
    }

    fn index_by_document(&self, number: &String, kind: IdType) -> (r: Option<usize>)
        ensures
            r is Some <==> self.find(has_document(number@, kind)) is Some,
    {
        let mut i: usize = 0;
        while i < self.users.len()
            invariant
                i <= self.users@.len(),
                crate::event::first_index(self.users@.subrange(0, i as int), has_document(number@, kind)) is None,
            decreases self.users@.len() - i,
        {
            proof { crate::event::lemma_first_index_step(self.users@, has_document(number@, kind), i as int); }
            if self.users[i].identification_number == *number && self.users[i].identification_type == kind {
                return Some(i);
            }
            i = i + 1;
        }
        proof { crate::event::lemma_first_index_end(self.users@, has_document(number@, kind)); }
        None
    }

    /// Registers a user under the identity `id` at time `now`, as of `today`: the birth
    /// date must give an age from 7 to 100, and the email, the phone number and the
    /// document must be new. The password is stored as a bcrypt hash.
    pub fn register_user(&mut self, creation: UserCreation, id: u128, now: i64, today: Date) -> (r: Result<LogInResponse, Error>)
        ensures
            !(MIN_USER_AGE <= signed_age(today, creation.birth_date) <= MAX_USER_AGE)
                ==> (r matches Err(e) && e is InvalidBirthDate),
            MIN_USER_AGE <= signed_age(today, creation.birth_date) <= MAX_USER_AGE
                ==> match old(self).registration_refusal(creation) {
                    Some(e) => r == Err::<LogInResponse, Error>(e),
                    None => (r is Ok || (r matches Err(e) && e is ErrorHashing)),
                },
            r matches Ok(resp) ==> (resp == LogInResponse { user_id: id, user_rol: URol::USER })
                && final(self).users@.len() == old(self).users@.len() + 1
                && final(self).users@.drop_last() == old(self).users@
                && final(self).users@.last().id_user == id
                && final(self).users@.last().email@ == creation.email@
                && final(self).users@.last().phone_number@ == creation.phone_number@
                && final(self).users@.last().user_rol == URol::USER
                && bcrypt_verdict(creation.password@, final(self).users@.last().password@) == Some(true)
                && !final(self).users@.last().email_verified,
            r is Err ==> final(self).users@ == old(self).users@,
    {
        if let Err(e) = validate_birth_date(creation.birth_date, today) {
            return Err(e);
        }
        if self.index_by_email(&creation.email).is_some() {
            return Err(Error::EmailAlreadyExists);
        }
        if self.index_by_phone(&creation.phone_number).is_some() {
            return Err(Error::PhoneAlreadyExists);
        }
        if self.index_by_document(&creation.identification_number, creation.identification_type).is_some() {
            return Err(Error::DocumentAlreadyExists);
        }
        let hashed = match bcrypt_hash(creation.password.as_str()) {
            Ok(h) => h,
            Err(e) => return Err(e),
        };
        let user = User {
            id_user: id,
            first_name: creation.first_name,
            last_name: creation.last_name,
            birth_date: creation.birth_date,
            registration_date: now,
            email: creation.email,
            email_verified: false,
            phone_number: creation.phone_number,
            country_code: creation.country_code,
            password: hashed,
            identification_number: creation.identification_number,
            identification_type: creation.identification_type,
            user_rol: URol::USER,
        };
        self.users.push(user);
        proof { assert(self.users@.drop_last() =~= old(self).users@); }
        Ok(LogInResponse { user_id: id, user_rol: URol::USER })
    }

    /// Replaces the details of user `id` with `c`, as of `today`. The birth date must give
    /// an age from 7 to 100, and a changed email, phone number or document must be free. A
    /// non-empty password that differs from the stored one is hashed and stored.
    pub fn update_user(&mut self, id: u128, c: UserCreation, today: Date) -> (r: Result<(), Error>)
        ensures
            old(self).user_at(id) is None ==> r == Err::<(), Error>(Error::UserIdDontExist),
            old(self).user_at(id) is Some && !(MIN_USER_AGE <= signed_age(today, c.birth_date) <= MAX_USER_AGE)
                ==> (r matches Err(e) && e is InvalidBirthDate),
            old(self).user_at(id) is Some && MIN_USER_AGE <= signed_age(today, c.birth_date) <= MAX_USER_AGE
                && old(self).update_refusal(old(self).user_at(id).unwrap(), c) is Some
                ==> r == Err::<(), Error>(old(self).update_refusal(old(self).user_at(id).unwrap(), c).unwrap()),
            r is Err ==> final(self).users@ == old(self).users@,
            r is Ok ==> old(self).user_at(id) is Some && {
                let i = old(self).user_at(id).unwrap();
                let u = final(self).users@[i];
                &&& final(self).users@.len() == old(self).users@.len()
                &&& forall|j: int| 0 <= j < old(self).users@.len() && j != i ==> final(self).users@[j] == old(self).users@[j]
                &&& u.id_user == id && u.email@ == c.email@ && u.phone_number@ == c.phone_number@
                &&& u.first_name@ == c.first_name@ && u.last_name@ == c.last_name@ && u.birth_date == c.birth_date
                &&& u.identification_number@ == c.identification_number@ && u.identification_type == c.identification_type
                &&& u.user_rol == old(self).users@[i].user_rol
                &&& (c.password@.len() == 0 || c.password@ == old(self).users@[i].password@)
                    ==> u.password@ == old(self).users@[i].password@
            },
    {
        let i = match self.index_by_id(id) {
            Some(i) => i,
            None => return Err(Error::UserIdDontExist),
        };
        if let Err(e) = validate_birth_date(c.birth_date, today) {
            return Err(e);
        }
        if self.users[i].email != c.email && self.index_by_email(&c.email).is_some() {
            return Err(Error::EmailAlreadyExists);
        }
        if self.users[i].phone_number != c.phone_number && self.index_by_phone(&c.phone_number).is_some() {
            return Err(Error::PhoneAlreadyExists);
        }
        if (self.users[i].identification_number != c.identification_number
            || self.users[i].identification_type != c.identification_type)
            && self.index_by_document(&c.identification_number, c.identification_type).is_some() {
            return Err(Error::DocumentAlreadyExists);
        }
        let password = if !c.password.as_str().is_empty() && c.password != self.users[i].password {
            match bcrypt_hash(c.password.as_str()) {
                Ok(h) => h,
                Err(e) => return Err(e),
            }
        } else {
            self.users[i].password.clone()
        };
        let ghost before = self.users@;
        let current = self.users.remove(i);
        let updated = User {
            id_user: current.id_user,
            first_name: c.first_name,
            last_name: c.last_name,
            birth_date: c.birth_date,
            registration_date: current.registration_date,
            email: c.email,
            email_verified: current.email_verified,
            phone_number: c.phone_number,
            country_code: c.country_code,
            password,
            identification_number: c.identification_number,
            identification_type: c.identification_type,
            user_rol: current.user_rol,
        };
        self.users.insert(i, updated);
        proof {
            crate::event::lemma_first_index_bounds(before, is_user(id));
            assert(self.users@ =~= before.update(i as int, updated));
        }
        Ok(())
    }

    /// The identity of the user that `identifier` names, by phone number first, then by email.
    pub fn identify(&self, identifier: &String) -> (r: Result<u128, Error>)
        ensures
            match self.identified(identifier@) {
                Some(i) => r == Ok::<u128, Error>(self.users@[i].id_user),
                None => r == Err::<u128, Error>(Error::InvalidIdentifier),
            },
    {
        if let Some(i) = self.index_by_phone(identifier) {
            return Ok(self.users[i].id_user);
        }
        match self.index_by_email(identifier) {
            Some(i) => Ok(self.users[i].id_user),
            None => Err(Error::InvalidIdentifier),
        }
    }

    /// Logs a user in: the identifier must name a user, whose stored hash must accept
    /// the password.
    pub fn log_in_user(&self, info: &UserLogInInfo) -> (r: Result<LogInResponse, Error>)
        ensures
            self.identified(info.identifier@) is None ==> r == Err::<LogInResponse, Error>(Error::InvalidIdentifier),
            self.identified(info.identifier@) is Some ==> match bcrypt_verdict(info.password@, self.stored_hash(info.identifier@)) {
                Some(true) => r == Ok::<LogInResponse, Error>(self.login_of(info.identifier@)),
                Some(false) => r == Err::<LogInResponse, Error>(Error::InvalidPassword),
                None => (r matches Err(e) && e is ErrorHashing),
            },
    {
        let i = if let Some(i) = self.index_by_phone(&info.identifier) {
            i
        } else {
            match self.index_by_email(&info.identifier) {
                Some(i) => i,
                None => return Err(Error::InvalidIdentifier),
            }
        };
        let user = &self.users[i];
        match password_verdict(bcrypt_verify(info.password.as_str(), user.password.as_str())) {
            Ok(()) => Ok(LogInResponse { user_id: user.id_user, user_rol: user.user_rol }),
            Err(e) => Err(e),
        }
    }

    /// The role of user `id`, or `None` when there is no such user.
    pub fn role_of(&self, id: u128) -> (r: Option<URol>)
        ensures
            match self.user_at(id) {
                Some(i) => r == Some(self.users@[i].user_rol),
                None => r is None,
            },
    {
        match self.index_by_id(id) {
            Some(i) => Some(self.users[i].user_rol),
            None => None,
        }
    }

    /// The birth date of user `id`, or `None` when there is no such user.
    pub fn birth_date_of(&self, id: u128) -> (r: Option<Date>)
        ensures
            match self.user_at(id) {
                Some(i) => r == Some(self.users@[i].birth_date),
                None => r is None,
            },
    {
        match self.index_by_id(id) {
            Some(i) => Some(self.users[i].birth_date),
            None => None,
        }
    }

    /// Gives user `id` the role `role`.
    pub fn update_user_role(&mut self, id: u128, role: URol) -> (r: Result<(), Error>)
        ensures
            old(self).user_at(id) is None ==> r == Err::<(), Error>(Error::UserIdDontExist)
                && final(self).users@ == old(self).users@,
            old(self).user_at(id) matches Some(i) ==> r is Ok
                && final(self).users@.len() == old(self).users@.len()
                && final(self).users@[i].user_rol == role
                && final(self).users@[i].id_user == id
                && forall|j: int| 0 <= j < old(self).users@.len() && j != i
                    ==> final(self).users@[j] == old(self).users@[j],
    {
        let i = match self.index_by_id(id) {
            Some(i) => i,
            None => return Err(Error::UserIdDontExist),
        };
        let ghost before = self.users@;
        let mut user = self.users.remove(i);
        user.user_rol = role;
        self.users.insert(i, user);
        proof {
            crate::event::lemma_first_index_bounds(before, is_user(id));
            assert(self.users@ =~= before.update(i as int, user));
        }
        Ok(())
    }
}

} // verus!
