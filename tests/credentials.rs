use pixelstrom::credentials::{CredentialCheck, CredentialError, UserManager};

#[test]
fn first_login_creates_user_then_verifies() {
    let mut m = UserManager::new();
    let alice = "alice".to_string();
    assert_eq!(m.check_credentials(&alice, &"hunter2".to_string()), Ok(CredentialCheck::Created));
    let stored = m.lookup(&alice).expect("alice is stored").clone();
    assert!(stored.starts_with("$argon2"));
    assert_eq!(m.entries().len(), 1);
    assert_eq!(m.check_credentials(&alice, &"hunter2".to_string()), Ok(CredentialCheck::Verified(true)));
    assert_eq!(m.check_credentials(&alice, &"wrong".to_string()), Ok(CredentialCheck::Verified(false)));
    assert_eq!(m.lookup(&alice), Some(&stored));
}

#[test]
fn fixed_salt_gives_a_fixed_hash() {
    let mut a = UserManager::new();
    let mut b = UserManager::new();
    let salt = "c29tZXNhbHRzb21lc2FsdA".to_string();
    let u = "bob".to_string();
    let p = "pw".to_string();
    assert_eq!(a.check_credentials_with_salt(&u, &p, &salt), Ok(CredentialCheck::Created));
    assert_eq!(b.check_credentials_with_salt(&u, &p, &salt), Ok(CredentialCheck::Created));
    assert_eq!(a.lookup(&u), b.lookup(&u));
    assert!(a.lookup(&u).unwrap().contains("c29tZXNhbHRzb21lc2FsdA"));
}

#[test]
fn bad_salt_fails_hashing() {
    let mut m = UserManager::new();
    let r = m.check_credentials_with_salt(&"carol".to_string(), &"pw".to_string(), &"!".to_string());
    assert_eq!(r, Err(CredentialError::HashingFailed));
    assert!(m.lookup(&"carol".to_string()).is_none());
}

#[test]
fn corrupt_stored_hash_is_an_error() {
    let mut m = UserManager::new_from_entries(vec![("dave".to_string(), "not a hash".to_string())]);
    let r = m.check_credentials(&"dave".to_string(), &"pw".to_string());
    assert_eq!(r, Err(CredentialError::InvalidStoredHash));
}

#[test]
fn later_entries_replace_earlier_ones() {
    let m = UserManager::new_from_entries(vec![
        ("e".to_string(), "1".to_string()),
        ("f".to_string(), "2".to_string()),
        ("e".to_string(), "3".to_string()),
    ]);
    assert_eq!(m.lookup(&"e".to_string()), Some(&"3".to_string()));
    assert_eq!(m.lookup(&"f".to_string()), Some(&"2".to_string()));
    assert_eq!(m.entries().len(), 2);
    assert!(m.lookup(&"g".to_string()).is_none());
}

#[test]
fn removed_user_is_created_anew() {
    let mut m = UserManager::new_from_entries(vec![("jo".to_string(), "x".to_string()), ("kim".to_string(), "y".to_string())]);
    m.remove_user(&"jo".to_string());
    assert!(m.lookup(&"jo".to_string()).is_none());
    assert_eq!(m.lookup(&"kim".to_string()), Some(&"y".to_string()));
    m.remove_user(&"nobody".to_string());
    assert_eq!(m.entries().len(), 1);
}
