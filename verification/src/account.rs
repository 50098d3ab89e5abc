//! Account decisions: validating a registration, preparing a new account's
//! credentials, and checking a login against the stored password hash. The
//! session store and the account table are the surrounding program's work.

use vstd::prelude::*;
use vstd::string::StringSliceAdditionalSpecFns;

verus! {

/// The login form: the e-mail entered and the password tried.
pub struct LoginForm {
    pub login: String,
    pub password: String,
}

/// The registration form: the e-mail and the chosen password.
pub struct RegisterForm {
    pub email: String,
    pub password: String,
}

/// One account row.
pub struct User {
    pub id: u128,
    pub username: String,
    pub email: String,
}

/// Most registrations accepted per day.
pub const DAILY_REGISTRATION_LIMIT: i64 = 25;

/// Fewest bytes a password must hold.
pub const PASSWORD_MIN_BYTES: usize = 8;

/// Whether a string is a valid e-mail address. The address grammar is the
/// email_address crate's business; the name only fixes that equal strings
/// agree.
pub uninterp spec fn email_valid(s: Seq<char>) -> bool;

/// Relies on email_address::EmailAddress::is_valid: a function of the
/// address string alone.
#[verifier::external_body]
fn is_valid_email(s: &str) -> (r: bool)
    ensures
        r == email_valid(s@),
{
    email_address::EmailAddress::is_valid(s)
}

/// Everything that can refuse a registration.
#[derive(Debug, Clone, Copy, PartialEq, Eq, Structural)]
pub enum RegistrationError {
    /// The e-mail does not parse as an address.
    InvalidEmail,
    /// Today's registrations already reached the daily limit.
    DailyLimitReached,
    /// An account with this e-mail exists.
    AccountExists,
    /// The password is shorter than the minimum.
    PasswordTooShort,
}

/// The errors a registration attempt collects, in the order they are
/// reported: e-mail validity, the daily limit, an existing account, the
/// password length.
pub open spec fn registration_errors(
    email_ok: bool,
    daily_count: int,
    account_exists: bool,
    password_bytes: int,
) -> Seq<RegistrationError> {
    let a: Seq<RegistrationError> = if !email_ok {
        seq![RegistrationError::InvalidEmail]
    } else {
        Seq::empty()
    };
    let b: Seq<RegistrationError> = if daily_count > DAILY_REGISTRATION_LIMIT as int {
        seq![RegistrationError::DailyLimitReached]
    } else {
        Seq::empty()
    };
    let c: Seq<RegistrationError> = if account_exists {
        seq![RegistrationError::AccountExists]
    } else {
        Seq::empty()
    };
    let d: Seq<RegistrationError> = if password_bytes < PASSWORD_MIN_BYTES as int {
        seq![RegistrationError::PasswordTooShort]
    } else {
        Seq::empty()
    };
    a + b + c + d
}

/// Validate one registration attempt: the form's fields against the day's
/// registration count and whether the e-mail's account exists. An empty
/// result means the registration may proceed.
pub fn validate_registration(
    email: &str,
    password: &str,
    daily_count: i64,
    account_exists: bool,
) -> (r: Vec<RegistrationError>)
    ensures
        r@ == registration_errors(
            email_valid(email@),
            daily_count as int,
            account_exists,
            password.spec_bytes().len() as usize as int,
        ),
{
    let mut r: Vec<RegistrationError> = Vec::new();
    if !is_valid_email(email) {
        r.push(RegistrationError::InvalidEmail);
    }
    if daily_count > DAILY_REGISTRATION_LIMIT {
        r.push(RegistrationError::DailyLimitReached);
    }
    if account_exists {
        r.push(RegistrationError::AccountExists);
    }
    if password.len() < PASSWORD_MIN_BYTES {
        r.push(RegistrationError::PasswordTooShort);
    }
    proof {
        assert(r@ =~= registration_errors(
            email_valid(email@),
            daily_count as int,
            account_exists,
            password.spec_bytes().len() as usize as int,
        ));
    }
    r
}

/// Password hashing failed inside the hashing crate.
#[derive(Debug, PartialEq, Eq, Structural)]
pub struct HashError;

/// Relies on argon2's hash_password: a password hash in PHC string format
/// under a fresh random salt. Nothing more can be promised of a random salt.
#[verifier::external_body]
fn argon2_hash(password: &str) -> (r: Result<String, HashError>)
{
    let hashed: Result<argon2::PasswordHash, argon2::password_hash::Error> =
        argon2::PasswordHasher::hash_password(&argon2::Argon2::default(), password.as_bytes());
    match hashed {
        Ok(h) => Ok(h.to_string()),
        Err(_) => Err(HashError),
    }
}

/// Whether a password agrees with a stored PHC-format hash string. Both the
/// hash grammar and the key derivation are the argon2 crate's business; the
/// name only fixes that equal inputs agree.
pub uninterp spec fn password_matches(password: Seq<char>, hash: Seq<char>) -> bool;

/// Relies on argon2's verify_password: deterministic in the password and the
/// hash string (the salt is part of the hash); a hash string that does not
/// parse matches nothing.
#[verifier::external_body]
fn argon2_verify(password: &str, hash: &str) -> (r: bool)
    ensures
        r == password_matches(password@, hash@),
{
    argon2::PasswordVerifier::<str>::verify_password(
        &argon2::Argon2::default(),
        password.as_bytes(),
        hash,
    ).is_ok()
}

/// How many characters a generated username holds.
pub const USERNAME_LEN: usize = 12;

/// Relies on rand's Alphanumeric distribution: a string of exactly `len`
/// random alphanumeric characters; nothing else can be promised of a random
/// value.
#[verifier::external_body]
fn random_alphanumeric(len: usize) -> (r: String)
    ensures
        r@.len() == len as int,
{
    rand::distr::SampleString::sample_string(&rand::distr::Alphanumeric, &mut rand::rng(), len)
}

/// A new account's stored credentials: a fresh random username and the
/// password's salted hash.
pub fn new_credentials(password: &str) -> (r: Result<(String, String), HashError>)
    ensures
        (r matches Ok(c) ==> c.0@.len() == USERNAME_LEN as int),
{
    let hash = match argon2_hash(password) {
        Ok(h) => h,
        Err(e) => {
            return Err(e);
        },
    };
    let username = random_alphanumeric(USERNAME_LEN);
    Ok((username, hash))
}

/// Decide a login attempt against the fetched account row: the user exactly
/// when the password matches the stored hash.
pub fn check_password(
    password: &str,
    row_id: u128,
    row_username: String,
    row_email: String,
    stored_hash: &str,
) -> (r: Option<User>)
    ensures
        r is Some <==> password_matches(password@, stored_hash@),
        (r matches Some(u) ==> u.id == row_id && u.username@ == row_username@ && u.email@
            == row_email@),
{
    if argon2_verify(password, stored_hash) {
        Some(User { id: row_id, username: row_username, email: row_email })
    } else {
        None
    }
}

} // verus!
