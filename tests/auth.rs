use chat_relay::auth::{
    hash_password, login, login_outcome, registration_hash, registration_outcome,
    verify_password, PasswordError,
};

#[test]
fn test_hashing_and_verifying_same_strings() {
    let test_password = "Po1Po2Ca+tE3pE4tL".to_string();
    let test_password_hash = hash_password(&test_password).unwrap();
    let verify_result = verify_password(&test_password, &test_password_hash);
    assert!(verify_result.is_ok());
}

#[test]
fn test_hashing_and_verifying_different_strings() {
    let test_password = "Po1Po2Ca+tE3pE4tL".to_string();
    let different_password = "aCoMpLeTeLyDiFfErEnTpAsSwOrD".to_string();
    let test_password_hash = hash_password(&test_password).unwrap();
    let verify_result = verify_password(&different_password, &test_password_hash);
    assert!(verify_result.is_err());
}

#[test]
fn hash_is_not_the_password_and_is_salted() {
    let pw = "secret".to_string();
    let a = hash_password(&pw).unwrap();
    let b = hash_password(&pw).unwrap();
    assert_ne!(a, pw);
    assert_ne!(a, b);
    assert!(a.starts_with("$argon2"));
}

#[test]
fn malformed_hash_never_verifies() {
    let pw = "secret".to_string();
    assert_eq!(verify_password(&pw, &"not a hash".to_string()), Err(PasswordError::Mismatch));
    assert_eq!(verify_password(&pw, &pw), Err(PasswordError::Mismatch));
}

#[test]
fn registration_replies() {
    assert_eq!(
        registration_outcome(Some(4)),
        (Some(4), "Registration successful.".to_string())
    );
    assert_eq!(
        registration_outcome(None),
        (None, "Registration not successful. Try a different username.".to_string())
    );
    let h = registration_hash(&"pw".to_string()).unwrap();
    assert!(verify_password(&"pw".to_string(), &h).is_ok());
}

#[test]
fn login_replies() {
    assert_eq!(login_outcome(None, true), (None, "Login not successful.".to_string()));
    assert_eq!(login_outcome(Some(3), true), (Some(3), "Successfully logged in.".to_string()));
    assert_eq!(
        login_outcome(Some(3), false),
        (None, "Login not successful. The password seems to be incorrect.".to_string())
    );
    let pw = "hunter2".to_string();
    let h = hash_password(&pw).unwrap();
    assert_eq!(login(&pw, Some((9, h.clone()))), (Some(9), "Successfully logged in.".to_string()));
    assert_eq!(login(&"x".to_string(), Some((9, h))).0, None);
    assert_eq!(login(&pw, None), (None, "Login not successful.".to_string()));
}
