use hexane::account::{
    check_password, new_credentials, validate_registration, LoginForm, RegisterForm,
    RegistrationError, DAILY_REGISTRATION_LIMIT, PASSWORD_MIN_BYTES, USERNAME_LEN,
};

#[test]
fn registration_rejects_invalid_email_and_short_password() {
    let errors = validate_registration("notanemail", "short", 0, false);
    assert_eq!(
        errors,
        vec![
            RegistrationError::InvalidEmail,
            RegistrationError::PasswordTooShort
        ]
    );
}

#[test]
fn registration_accepts_a_clean_form() {
    let errors = validate_registration("user@example.com", "longenough", 0, false);
    assert_eq!(errors, Vec::new());
}

#[test]
fn registration_rejects_existing_account() {
    let errors = validate_registration("user@example.com", "longenough", 0, true);
    assert_eq!(errors, vec![RegistrationError::AccountExists]);
}

#[test]
fn registration_rejects_past_daily_limit() {
    assert_eq!(DAILY_REGISTRATION_LIMIT, 25);
    let at_limit = validate_registration("user@example.com", "longenough", 25, false);
    assert_eq!(at_limit, Vec::new());
    let over = validate_registration("user@example.com", "longenough", 26, false);
    assert_eq!(over, vec![RegistrationError::DailyLimitReached]);
}

#[test]
fn password_boundary_is_eight_bytes() {
    assert_eq!(PASSWORD_MIN_BYTES, 8);
    let seven = validate_registration("user@example.com", "1234567", 0, false);
    assert_eq!(seven, vec![RegistrationError::PasswordTooShort]);
    let eight = validate_registration("user@example.com", "12345678", 0, false);
    assert_eq!(eight, Vec::new());
}

#[test]
fn new_credentials_hash_verifies_the_password() {
    let (username, hash) = new_credentials("hunter2hunter2").unwrap();
    assert_eq!(username.chars().count(), USERNAME_LEN);
    assert!(username.chars().all(|c| c.is_ascii_alphanumeric()));
    let user = check_password("hunter2hunter2", 7, username.clone(), "u@e.com".to_string(), &hash);
    let user = user.expect("the right password must verify");
    assert_eq!(user.id, 7);
    assert_eq!(user.username, username);
    assert_eq!(user.email, "u@e.com");
}

#[test]
fn wrong_password_does_not_verify() {
    let (_, hash) = new_credentials("correct horse").unwrap();
    assert!(check_password("battery staple", 1, "u".to_string(), "e".to_string(), &hash).is_none());
}

#[test]
fn malformed_stored_hash_matches_nothing() {
    assert!(check_password("anything", 1, "u".to_string(), "e".to_string(), "not-a-hash").is_none());
}

#[test]
fn account_forms_carry_fields() {
    let login = LoginForm {
        login: "user@example.com".to_string(),
        password: "pw".to_string(),
    };
    let reg = RegisterForm {
        email: "user@example.com".to_string(),
        password: "longenough".to_string(),
    };
    assert_eq!(login.login, reg.email);
    assert_eq!(login.password, "pw");
    assert_eq!(reg.password, "longenough");
}
