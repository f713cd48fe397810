use task_tracker::store::{Error, Task, TodoApp, User};

fn task(id: u32, title: &str, description: &str, completed: bool, created_at: i64, user_id: &str) -> Task {
    Task {
        id,
        title: title.to_string(),
        description: description.to_string(),
        completed,
        created_at,
        user_id: user_id.to_string(),
    }
}

fn user(username: &str, password: &str) -> User {
    User { username: username.to_string(), password: password.to_string() }
}

#[test]
fn example_scenario() {
    let mut app = TodoApp::new();
    assert_eq!(app.register(&"alice".to_string(), &"pw1".to_string()), Ok(()));
    assert_eq!(
        app.register(&"alice".to_string(), &"pw2".to_string()),
        Err(Error::DuplicateUsername)
    );
    assert_eq!(
        app.login(&"alice".to_string(), &"wrong".to_string()),
        Err(Error::InvalidCredentials)
    );
    assert_eq!(app.login(&"alice".to_string(), &"pw1".to_string()), Ok(()));
    assert_eq!(app.add_task(&"Buy milk".to_string(), &"2%  ".to_string()), Ok(1));
    let listed = app.list_tasks().unwrap();
    assert_eq!(listed.len(), 1);
    assert_eq!(listed[0].id, 1);
    assert_eq!(listed[0].title, "Buy milk");
    assert_eq!(listed[0].description, "2%  ");
    assert!(!listed[0].completed);
    assert_eq!(listed[0].user_id, "alice");
    assert_eq!(app.complete_task(1), Ok(()));
    let listed = app.list_tasks().unwrap();
    assert_eq!(listed.len(), 1);
    assert!(listed[0].completed);
    app.logout();
    assert_eq!(app.register(&"bob".to_string(), &"pwb".to_string()), Ok(()));
    assert_eq!(app.login(&"bob".to_string(), &"pwb".to_string()), Ok(()));
    assert_eq!(app.list_tasks().unwrap().len(), 0);
    assert_eq!(app.complete_task(1), Err(Error::NotAuthorized));
}

#[test]
fn logout_when_logged_out_changes_nothing() {
    let mut app = TodoApp::new();
    assert!(!app.is_logged_in());
    app.logout();
    assert!(!app.is_logged_in());
    app.register(&"a".to_string(), &"p".to_string()).unwrap();
    app.logout();
    app.logout();
    assert!(!app.is_logged_in());
    assert_eq!(app.login(&"a".to_string(), &"p".to_string()), Ok(()));
    assert!(app.is_logged_in());
    app.logout();
    assert!(!app.is_logged_in());
}

#[test]
fn task_ids_strictly_increase_and_are_never_reused() {
    let mut app = TodoApp::new();
    app.register(&"a".to_string(), &"p".to_string()).unwrap();
    app.login(&"a".to_string(), &"p".to_string()).unwrap();
    let id1 = app.add_task(&"one".to_string(), &"".to_string()).unwrap();
    let id2 = app.add_task(&"two".to_string(), &"".to_string()).unwrap();
    let id3 = app.add_task(&"three".to_string(), &"".to_string()).unwrap();
    assert_eq!((id1, id2, id3), (1, 2, 3));
    assert!(id1 < id2 && id2 < id3);
    assert_eq!(app.delete_task(2), Ok(()));
    let id4 = app.add_task(&"four".to_string(), &"".to_string()).unwrap();
    assert_eq!(id4, 4);
}

#[test]
fn ownership_isolation() {
    let mut app = TodoApp::new();
    app.register(&"alice".to_string(), &"pa".to_string()).unwrap();
    app.register(&"bob".to_string(), &"pb".to_string()).unwrap();
    app.login(&"alice".to_string(), &"pa".to_string()).unwrap();
    let id = app.add_task(&"secret".to_string(), &"mine".to_string()).unwrap();
    app.logout();
    app.login(&"bob".to_string(), &"pb".to_string()).unwrap();
    assert!(app.list_tasks().unwrap().is_empty());
    assert_eq!(app.complete_task(id), Err(Error::NotAuthorized));
    assert_eq!(
        app.edit_task(id, &"x".to_string(), &"y".to_string()),
        Err(Error::NotAuthorized)
    );
    assert_eq!(app.delete_task(id), Err(Error::NotAuthorized));
    app.logout();
    app.login(&"alice".to_string(), &"pa".to_string()).unwrap();
    let listed = app.list_tasks().unwrap();
    assert_eq!(listed.len(), 1);
    assert_eq!(listed[0].title, "secret");
    assert!(!listed[0].completed);
}

#[test]
fn check_order_session_then_existence_then_ownership() {
    let mut app = TodoApp::new();
    app.register(&"alice".to_string(), &"pa".to_string()).unwrap();
    app.register(&"bob".to_string(), &"pb".to_string()).unwrap();
    // No session: even a task id that exists for nobody reports NotLoggedIn.
    assert_eq!(app.complete_task(99), Err(Error::NotLoggedIn));
    assert_eq!(app.add_task(&"t".to_string(), &"d".to_string()), Err(Error::NotLoggedIn));
    assert!(app.list_tasks().is_err());
    app.login(&"alice".to_string(), &"pa".to_string()).unwrap();
    let id = app.add_task(&"t".to_string(), &"d".to_string()).unwrap();
    // Existence before ownership: a missing id is NotFound even for bob.
    app.logout();
    app.login(&"bob".to_string(), &"pb".to_string()).unwrap();
    assert_eq!(app.complete_task(99), Err(Error::TaskNotFound));
    assert_eq!(app.edit_task(99, &"x".to_string(), &"y".to_string()), Err(Error::TaskNotFound));
    assert_eq!(app.delete_task(99), Err(Error::TaskNotFound));
    // An existing foreign task reports NotAuthorized.
    assert_eq!(app.complete_task(id), Err(Error::NotAuthorized));
}

#[test]
fn edit_rewrites_text_but_keeps_completion_and_owner() {
    let mut app = TodoApp::new();
    app.register(&"a".to_string(), &"p".to_string()).unwrap();
    app.login(&"a".to_string(), &"p".to_string()).unwrap();
    let id = app.add_task(&"old title".to_string(), &"old desc".to_string()).unwrap();
    app.complete_task(id).unwrap();
    assert_eq!(
        app.edit_task(id, &"new title".to_string(), &"new desc".to_string()),
        Ok(())
    );
    let listed = app.list_tasks().unwrap();
    assert_eq!(listed[0].title, "new title");
    assert_eq!(listed[0].description, "new desc");
    assert!(listed[0].completed);
    assert_eq!(listed[0].user_id, "a");
}

#[test]
fn delete_removes_only_that_task() {
    let mut app = TodoApp::new();
    app.register(&"a".to_string(), &"p".to_string()).unwrap();
    app.login(&"a".to_string(), &"p".to_string()).unwrap();
    let id1 = app.add_task(&"one".to_string(), &"".to_string()).unwrap();
    let id2 = app.add_task(&"two".to_string(), &"".to_string()).unwrap();
    app.delete_task(id1).unwrap();
    let listed = app.list_tasks().unwrap();
    assert_eq!(listed.len(), 1);
    assert_eq!(listed[0].id, id2);
    assert_eq!(app.complete_task(id1), Err(Error::TaskNotFound));
}

#[test]
fn three_records_reload_id_continuity() {
    // Persisted tasks with greatest id 9: the rebuilt counter hands out 10.
    let tasks = vec![
        task(2, "a", "", false, 100, "bob"),
        task(5, "b", "", true, 200, "bob"),
        task(9, "c", "", false, 300, "bob"),
    ];
    let users = vec![user("bob", "pw")];
    let mut app = TodoApp::from_collections(tasks, users).unwrap();
    assert!(!app.is_logged_in());
    app.login(&"bob".to_string(), &"pw".to_string()).unwrap();
    assert_eq!(app.add_task(&"d".to_string(), &"".to_string()), Ok(10));
}

#[test]
fn empty_reload_starts_at_one() {
    let mut app = TodoApp::from_collections(Vec::new(), vec![user("a", "p")]).unwrap();
    app.login(&"a".to_string(), &"p".to_string()).unwrap();
    assert_eq!(app.add_task(&"t".to_string(), &"".to_string()), Ok(1));
}

#[test]
fn from_collections_rejects_bad_collections() {
    // Ids not strictly increasing.
    let bad_order = vec![task(5, "a", "", false, 0, "u"), task(2, "b", "", false, 0, "u")];
    assert_eq!(
        TodoApp::from_collections(bad_order, Vec::new()).unwrap_err(),
        Error::CorruptState
    );
    // A task id of zero.
    let zero_id = vec![task(0, "a", "", false, 0, "u")];
    assert_eq!(
        TodoApp::from_collections(zero_id, Vec::new()).unwrap_err(),
        Error::CorruptState
    );
    // Duplicate usernames.
    let dup = vec![user("x", "1"), user("x", "2")];
    assert_eq!(
        TodoApp::from_collections(Vec::new(), dup).unwrap_err(),
        Error::CorruptState
    );
    // A duplicate id is also not strictly increasing.
    let dup_id = vec![task(3, "a", "", false, 0, "u"), task(3, "b", "", false, 0, "u")];
    assert_eq!(
        TodoApp::from_collections(dup_id, Vec::new()).unwrap_err(),
        Error::CorruptState
    );
}

#[test]
fn error_messages_match_the_cli_wording() {
    assert_eq!(Error::DuplicateUsername.message(), "Username already exists");
    assert_eq!(Error::InvalidCredentials.message(), "Invalid username or password");
    assert_eq!(Error::NotLoggedIn.message(), "Not logged in");
    assert_eq!(Error::TaskNotFound.message(), "Task not found");
    assert_eq!(Error::NotAuthorized.message(), "Not authorized to modify the task");
    assert_eq!(Error::CorruptState.message(), "Persisted data is corrupt");
    assert_eq!(Error::IoFailure.message(), "Failed to save data");
}

#[test]
fn passwords_compare_exactly() {
    let mut app = TodoApp::new();
    app.register(&"a".to_string(), &"Secret".to_string()).unwrap();
    assert_eq!(
        app.login(&"a".to_string(), &"secret".to_string()),
        Err(Error::InvalidCredentials)
    );
    assert_eq!(
        app.login(&"A".to_string(), &"Secret".to_string()),
        Err(Error::InvalidCredentials)
    );
    assert_eq!(app.login(&"a".to_string(), &"Secret".to_string()), Ok(()));
}
