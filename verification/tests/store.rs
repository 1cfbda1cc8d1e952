use nyanpasswd::store::user_lookup_status;
use nyanpasswd::{Alias, AuthenticationResult, Service, StoreError, User};

#[test]
fn smoke_test() {
    let mut svc = Service::new().run_migrations();

    let uuid = svc.create_user("vsh", None, false).unwrap();
    let user = svc.find_user_by_name("vsh").unwrap();
    assert_eq!(user.id, uuid);

    // Check that no passwords are defined
    assert_eq!(svc.list_passwords_for(&user).len(), 0);
    assert!(matches!(
        svc.verify_password(&user.username, "AAAAAAAA").unwrap(),
        AuthenticationResult::IncorrectPassword
    ));
    // Generate a password and ensure it matches
    let password = svc.new_password(&user, "longiflorum", None).unwrap();
    assert_eq!(svc.list_passwords_for(&user).len(), 1);
    assert!(matches!(
        svc.verify_password(&user.username, &password).unwrap(),
        AuthenticationResult::Success
    ));
    // Ensure something else isn't accepted
    assert!(matches!(
        svc.verify_password(&user.username, "AAAAAAAA").unwrap(),
        AuthenticationResult::IncorrectPassword
    ));
    // Ensure non-unique labels are rejected for the same user
    svc.new_password(&user, "longiflorum", None).unwrap_err();
    // Generate another password and check if it works
    let another_password = svc.new_password(&user, "primrose", None).unwrap();
    assert_eq!(svc.list_passwords_for(&user).len(), 2);
    assert!(matches!(
        svc.verify_password(&user.username, &another_password).unwrap(),
        AuthenticationResult::Success
    ));
    // Check that the older password still works
    assert!(matches!(
        svc.verify_password(&user.username, &password).unwrap(),
        AuthenticationResult::Success
    ));
    // Remove a password
    svc.rm_password_for(&user, "longiflorum");
    assert_eq!(svc.list_passwords_for(&user).len(), 1);
    assert!(matches!(
        svc.verify_password(&user.username, &password).unwrap(),
        AuthenticationResult::IncorrectPassword
    ));
    assert!(matches!(
        svc.verify_password(&user.username, &another_password).unwrap(),
        AuthenticationResult::Success
    ));
}

#[test]
fn test_login_allowed() {
    let mut svc = Service::new().run_migrations();

    // Create a user
    let uuid = svc.create_user("vsh", None, false).unwrap();
    let user = svc.find_user_by_name("vsh").unwrap();
    assert_eq!(user.id, uuid);
    // Create a password for them
    let password = svc.new_password(&user, "longiflorum", None).unwrap();
    // Check that they can log in
    assert!(matches!(
        svc.verify_password("vsh", &password).unwrap(),
        AuthenticationResult::Success
    ));
    // Disallow this user to log in
    svc.toggle_user_login_allowed(uuid);
    // Check they can't log in
    assert!(matches!(
        svc.verify_password("vsh", &password).unwrap(),
        AuthenticationResult::LoginDisabled
    ));
    // Allow this user back
    svc.toggle_user_login_allowed(uuid);
    // Ensure they're able to log in again
    assert!(matches!(
        svc.verify_password("vsh", &password).unwrap(),
        AuthenticationResult::Success
    ));
}

#[test]
fn test_non_existent_user() {
    let svc = Service::new().run_migrations();
    assert!(svc.find_user_by_name("vsh").is_none());
}

#[test]
fn test_aliases() {
    let mut svc = Service::new().run_migrations();

    let users: Vec<u128> = ["vsh", "mvs", "mak"]
        .iter()
        .map(|user| svc.create_user(user, None, false).unwrap())
        .collect();

    for user in &users {
        svc.add_alias(&Alias {
            alias_name: "ops".to_string(),
            destination: *user,
        })
        .unwrap();
    }

    assert_eq!(svc.list_all_aliases(), vec![("ops".to_owned(), users.to_vec())]);
}

#[test]
fn verify_password_for_unknown_name_is_no_such_user() {
    let mut svc = Service::new().run_migrations();
    let uuid = svc.create_user("vsh", None, false).unwrap();
    let user = svc.find_user_by_name("vsh").unwrap();
    svc.new_password(&user, "primary", None).unwrap();
    assert_eq!(user.id, uuid);
    // A name the store has never seen is classified as an unknown user,
    // never as a wrong password, whatever the candidate.
    assert!(matches!(
        svc.verify_password("mak", "anything").unwrap(),
        AuthenticationResult::NoSuchUser
    ));
    assert!(matches!(
        svc.verify_password("mak", "").unwrap(),
        AuthenticationResult::NoSuchUser
    ));
}

#[test]
fn create_user_rejects_short_and_duplicate_names() {
    let mut svc = Service::new().run_migrations();
    assert_eq!(svc.create_user("ab", None, false).unwrap_err(), StoreError::UsernameTooShort);
    svc.create_user("vsh", None, false).unwrap();
    assert_eq!(svc.create_user("vsh", None, true).unwrap_err(), StoreError::UsernameTaken);
}

#[test]
fn new_user_record_fields() {
    let mut svc = Service::new().run_migrations();
    svc.set_clock(1700000000);
    let uuid = svc.create_user("vsh", Some(1800000000), true).unwrap();
    let user = svc.get_user_by_id(uuid).unwrap();
    assert_eq!(user.username, "vsh");
    assert!(user.login_allowed);
    assert_eq!(user.created_at, 1700000000);
    assert_eq!(user.expires_at, Some(1800000000));
    assert!(user.non_human);
}

#[test]
fn set_expiry_updates_the_record() {
    let mut svc = Service::new().run_migrations();
    let uuid = svc.create_user("vsh", None, false).unwrap();
    svc.set_user_expiry_date(uuid, Some(42));
    assert_eq!(svc.get_user_by_id(uuid).unwrap().expires_at, Some(42));
    svc.set_user_expiry_date(uuid, None);
    assert_eq!(svc.get_user_by_id(uuid).unwrap().expires_at, None);
    // An unknown id changes nothing and is not an error.
    svc.set_user_expiry_date(999, Some(7));
    assert_eq!(svc.get_user_by_id(uuid).unwrap().expires_at, None);
}

#[test]
fn list_users_is_ordered_by_username() {
    let mut svc = Service::new().run_migrations();
    svc.create_user("vsh", None, false).unwrap();
    svc.create_user("mak", None, false).unwrap();
    svc.create_user("mvs", None, false).unwrap();
    let names: Vec<String> = svc.list_users().into_iter().map(|u| u.username).collect();
    assert_eq!(names, vec!["mak".to_string(), "mvs".to_string(), "vsh".to_string()]);
}

#[test]
fn list_passwords_is_ordered_by_label() {
    let mut svc = Service::new().run_migrations();
    svc.create_user("vsh", None, false).unwrap();
    let user = svc.find_user_by_name("vsh").unwrap();
    svc.new_password(&user, "zinnia", None).unwrap();
    svc.new_password(&user, "aster", None).unwrap();
    svc.new_password(&user, "lily", None).unwrap();
    let labels: Vec<String> = svc.list_passwords_for(&user).into_iter().map(|p| p.label).collect();
    assert_eq!(labels, vec!["aster".to_string(), "lily".to_string(), "zinnia".to_string()]);
}

#[test]
fn list_passwords_for_username_unknown_is_empty() {
    let mut svc = Service::new().run_migrations();
    svc.create_user("vsh", None, false).unwrap();
    let user = svc.find_user_by_name("vsh").unwrap();
    svc.new_password(&user, "primary", None).unwrap();
    assert_eq!(svc.list_passwords_for_username("vsh").len(), 1);
    assert_eq!(svc.list_passwords_for_username("mak").len(), 0);
}

#[test]
fn new_password_for_unknown_user_is_rejected() {
    let mut svc = Service::new().run_migrations();
    let ghost_user = User {
        id: 999,
        username: "mak".to_string(),
        login_allowed: true,
        created_at: 0,
        expires_at: None,
        non_human: false,
    };
    assert_eq!(
        svc.new_password(&ghost_user, "primary", None).unwrap_err(),
        StoreError::NoSuchUser
    );
}

#[test]
fn stored_hash_is_not_the_secret() {
    let mut svc = Service::new().run_migrations();
    svc.create_user("vsh", None, false).unwrap();
    let user = svc.find_user_by_name("vsh").unwrap();
    let secret = svc.new_password(&user, "primary", None).unwrap();
    assert_eq!(secret.len(), 64);
    assert!(secret.chars().all(|c| c.is_ascii_alphanumeric()));
    let stored = svc.list_passwords_for(&user);
    assert_eq!(stored.len(), 1);
    assert_ne!(stored[0].hash, secret);
    // The self-describing hash format names the algorithm, not the secret.
    assert!(stored[0].hash.starts_with("$argon2i$"));
}

#[test]
fn alias_add_is_idempotent_and_checked() {
    let mut svc = Service::new().run_migrations();
    let vsh = svc.create_user("vsh", None, false).unwrap();
    let pair = Alias { alias_name: "ops".to_string(), destination: vsh };
    // The destination must exist.
    let bad = Alias { alias_name: "ops".to_string(), destination: 999 };
    assert_eq!(svc.add_alias(&bad).unwrap_err(), StoreError::NoSuchUser);
    // Recording the same pair twice keeps one row.
    svc.add_alias(&pair).unwrap();
    svc.add_alias(&pair).unwrap();
    assert_eq!(svc.list_all_aliases(), vec![("ops".to_owned(), vec![vsh])]);
    // Removing the pair empties the listing; removing again changes nothing.
    svc.remove_alias(&pair);
    assert_eq!(svc.list_all_aliases().len(), 0);
    svc.remove_alias(&pair);
    assert_eq!(svc.list_all_aliases().len(), 0);
}

#[test]
fn alias_listing_sorts_names_and_keeps_insertion_order() {
    let mut svc = Service::new().run_migrations();
    let vsh = svc.create_user("vsh", None, false).unwrap();
    let mak = svc.create_user("mak", None, false).unwrap();
    svc.add_alias(&Alias { alias_name: "zulu".to_string(), destination: vsh }).unwrap();
    svc.add_alias(&Alias { alias_name: "alfa".to_string(), destination: vsh }).unwrap();
    svc.add_alias(&Alias { alias_name: "zulu".to_string(), destination: mak }).unwrap();
    assert_eq!(
        svc.list_all_aliases(),
        vec![("alfa".to_owned(), vec![vsh]), ("zulu".to_owned(), vec![vsh, mak])]
    );
}

#[test]
fn non_human_users_cannot_use_the_dashboard() {
    let mut svc = Service::new().run_migrations();
    svc.create_user("vsh", None, false).unwrap();
    svc.create_user("bot", None, true).unwrap();
    assert!(svc.find_user_by_name("vsh").unwrap().may_use_dashboard());
    assert!(!svc.find_user_by_name("bot").unwrap().may_use_dashboard());
}

#[test]
fn user_lookup_maps_to_statuses() {
    let mut svc = Service::new().run_migrations();
    svc.create_user("vsh", None, false).unwrap();
    let found = svc.find_user_by_name("vsh");
    assert_eq!(user_lookup_status(&found), 200);
    assert_eq!(found.unwrap().username, "vsh");
    let absent = svc.find_user_by_name("mak");
    assert_eq!(user_lookup_status(&absent), 404);
}

#[test]
fn authentication_outcomes_map_to_statuses() {
    assert_eq!(AuthenticationResult::Success.status_code(), 200);
    assert_eq!(AuthenticationResult::NoSuchUser.status_code(), 400);
    assert_eq!(AuthenticationResult::LoginDisabled.status_code(), 403);
    assert_eq!(AuthenticationResult::IncorrectPassword.status_code(), 401);
}
