use tunnel_core::users::{UserInfo, UserRow, UsersSqlxDatabase};

fn user(name: &str) -> UserInfo {
    UserInfo {
        sub: "sub".into(),
        nickname: name.to_string(),
        name: name.to_string(),
        picture: name.to_string(),
        updated_at: "today".to_string(),
        email: format!("{}@ockam.io", name),
        email_verified: false,
    }
}

#[test]
fn users_repository_sql_test_repository() {
    let mut repository = UsersSqlxDatabase::create();

    // create and store 2 users
    let user1 = UserInfo {
        sub: "sub".into(),
        nickname: "me".to_string(),
        name: "me".to_string(),
        picture: "me".to_string(),
        updated_at: "today".to_string(),
        email: "me@ockam.io".into(),
        email_verified: false,
    };
    let user2 = UserInfo {
        sub: "sub".into(),
        nickname: "you".to_string(),
        name: "you".to_string(),
        picture: "you".to_string(),
        updated_at: "today".to_string(),
        email: "you@ockam.io".into(),
        email_verified: false,
    };

    repository.store_user(&user1);
    repository.store_user(&user2);

    // retrieve them as a vector or by name
    let result = repository.get_users();
    assert_eq!(result, vec![user1.clone(), user2.clone()]);

    let result = repository.get_user("me@ockam.io");
    assert_eq!(result, Some(user1.clone()));

    // a user can be set created as the default user
    repository.set_default_user("me@ockam.io");
    let result = repository.get_default_user();
    assert_eq!(result, Some(user1.clone()));

    // a user can be deleted
    repository.delete_user("you@ockam.io");
    let result = repository.get_user("you@ockam.io");
    assert_eq!(result, None);

    let result = repository.get_users();
    assert_eq!(result, vec![user1.clone()]);
}

#[test]
fn deleting_the_other_user_leaves_the_default_user() {
    let mut repository = UsersSqlxDatabase::create();
    repository.store_user(&user("you"));
    repository.store_user(&user("me"));
    repository.set_default_user("me@ockam.io");
    repository.delete_user("you@ockam.io");
    assert_eq!(repository.get_default_user(), Some(user("me")));
    assert_eq!(repository.get_users(), vec![user("me")]);
}

#[test]
fn storing_again_replaces_and_keeps_the_default_mark() {
    let mut repository = UsersSqlxDatabase::create();
    repository.store_user(&user("me"));
    repository.store_user(&user("you"));
    assert_eq!(repository.get_default_user(), None);
    repository.set_default_user("me@ockam.io");

    let mut changed = user("me");
    changed.name = "myself".to_string();
    changed.email_verified = true;
    repository.store_user(&changed);
    assert_eq!(repository.get_users(), vec![changed.clone(), user("you")]);
    assert_eq!(repository.get_default_user(), Some(changed));

    // a user that is not the default user loses a second mark when stored again
    repository.set_default_user("you@ockam.io");
    assert!(repository.rows()[1].is_default());
    repository.store_user(&user("you"));
    assert!(!repository.rows()[1].is_default());
}

#[test]
fn marking_an_unknown_user_changes_nothing() {
    let mut repository = UsersSqlxDatabase::create();
    repository.store_user(&user("me"));
    repository.set_default_user("nobody@ockam.io");
    repository.delete_user("nobody@ockam.io");
    assert_eq!(repository.get_default_user(), None);
    assert_eq!(repository.get_users(), vec![user("me")]);
}

#[test]
fn rows_that_share_an_email_are_refused() {
    let rows = vec![UserRow::new(&user("me"), false), UserRow::new(&user("you"), true)];
    let repository = UsersSqlxDatabase::new(rows).unwrap();
    assert_eq!(repository.get_default_user(), Some(user("you")));
    let rows = vec![
        UserRow::new(&user("me"), false),
        UserRow::new(&user("you"), true),
        UserRow::new(&user("me"), true),
    ];
    assert!(UsersSqlxDatabase::new(rows).is_none());
}
