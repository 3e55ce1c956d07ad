use ghidra_accounts::store::UserStore;

#[test]
fn test_user_store() {
    let mut store = UserStore::default();
    store
        .new_user(&String::from("stu"), &String::from("hello123"))
        .unwrap();

    assert!(store.check_user(&String::from("stu"), &String::from("hello123")));
    assert!(!store.check_user(&String::from("stu"), &String::from("invalid")));

    store.delete_user(&String::from("stu"));

    assert!(!store.check_user(&String::from("stu"), &String::from("hello123")));
}

#[test]
fn register_check_delete_scenario() {
    let mut store = UserStore::new();
    store
        .new_user(&String::from("stu"), &String::from("hello123"))
        .unwrap();
    assert!(store.check_user(&String::from("stu"), &String::from("hello123")));
    assert!(!store.check_user(&String::from("stu"), &String::from("wrong")));
    store.delete_user(&String::from("stu"));
    assert!(!store.check_user(&String::from("stu"), &String::from("hello123")));
}

#[test]
fn registered_password_checks_and_others_fail() {
    let mut store = UserStore::new();
    store
        .new_user(&String::from("alice"), &String::from("correct horse"))
        .unwrap();
    assert!(store.check_user(&String::from("alice"), &String::from("correct horse")));
    assert!(!store.check_user(&String::from("alice"), &String::from("correct horsf")));
}

#[test]
fn unknown_user_is_rejected() {
    let store = UserStore::new();
    assert!(!store.check_user(&String::from("nobody"), &String::from("anything")));
    assert!(!store.check_user(&String::from(""), &String::from("")));
}

#[test]
fn unknown_name_is_rejected_in_populated_store() {
    let mut store = UserStore::new();
    store
        .new_user(&String::from("alice"), &String::from("pw"))
        .unwrap();
    assert!(!store.check_user(&String::from("bob"), &String::from("pw")));
}

#[test]
fn reregistering_replaces_the_record() {
    let mut store = UserStore::new();
    store
        .new_user(&String::from("alice"), &String::from("first"))
        .unwrap();
    store
        .new_user(&String::from("alice"), &String::from("second"))
        .unwrap();
    assert_eq!(store.users().len(), 1);
    assert!(store.check_user(&String::from("alice"), &String::from("second")));
    assert!(!store.check_user(&String::from("alice"), &String::from("first")));
}

#[test]
fn stored_credential_is_a_hash_not_the_password() {
    let mut store = UserStore::new();
    store
        .new_user(&String::from("stu"), &String::from("hello123"))
        .unwrap();
    let users = store.users();
    assert_eq!(users.len(), 1);
    assert_eq!(users[0].name, "stu");
    assert_ne!(users[0].password, "hello123");
    assert!(users[0].password.starts_with("$rscrypt$"));
    // The stored encoding itself is not a password that verifies.
    let stored = users[0].password.clone();
    assert!(!store.check_user(&String::from("stu"), &stored));
}

#[test]
fn delete_user_on_absent_name_is_a_noop() {
    let mut store = UserStore::new();
    store
        .new_user(&String::from("alice"), &String::from("pw"))
        .unwrap();
    store.delete_user(&String::from("bob"));
    assert_eq!(store.users().len(), 1);
    assert!(store.check_user(&String::from("alice"), &String::from("pw")));
}
