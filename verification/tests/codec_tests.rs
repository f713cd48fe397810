use task_tracker::codec::{decode_tasks, decode_users, encode_tasks, encode_users};
use task_tracker::store::{Error, Task, TodoApp, User};

fn task(id: u32, title: &str, description: &str, completed: bool, created_at: i64, user_id: &str) -> Task {
    Task {
        id,
        title: title.to_string(),
        description: description.to_string(),
        completed,
        created_at,
        user_id: user_id.to_string(),
    }
}

fn user(username: &str, password: &str) -> User {
    User { username: username.to_string(), password: password.to_string() }
}

#[test]
fn encode_tasks_exact_rendering() {
    let tasks = vec![task(1, "Buy milk", "2%  ", false, 1700000000, "alice")];
    let s = encode_tasks(&tasks);
    assert_eq!(
        s,
        "{\"1\":{\"id\":1,\"title\":\"Buy milk\",\"description\":\"2%  \",\"completed\":false,\"created_at\":1700000000,\"user_id\":\"alice\"}}"
    );
}

#[test]
fn encode_empty_collections() {
    assert_eq!(encode_tasks(&Vec::new()), "{}");
    assert_eq!(encode_users(&Vec::new()), "{}");
}

#[test]
fn encode_escapes_quotes_backslashes_and_controls() {
    let tasks = vec![task(7, "a\"b\\c", "line1\nline2\ttab", true, -5, "u")];
    let s = encode_tasks(&tasks);
    assert_eq!(
        s,
        "{\"7\":{\"id\":7,\"title\":\"a\\\"b\\\\c\",\"description\":\"line1\\u000aline2\\u0009tab\",\"completed\":true,\"created_at\":-5,\"user_id\":\"u\"}}"
    );
}

#[test]
fn encode_users_exact_rendering() {
    let users = vec![user("alice", "pw1"), user("bob", "p\"w")];
    let s = encode_users(&users);
    assert_eq!(
        s,
        "{\"alice\":{\"username\":\"alice\",\"password\":\"pw1\"},\"bob\":{\"username\":\"bob\",\"password\":\"p\\\"w\"}}"
    );
}

#[test]
fn tasks_round_trip() {
    let tasks = vec![
        task(1, "plain", "text", false, 0, "alice"),
        task(2, "quotes \" and \\ slashes", "tab\there", true, -1234567890123, "bob"),
        task(10, "unicode ärger ünd œ", "emoji \u{1F600} and \u{0001} control", false, 9223372036854775807, "alice"),
    ];
    let encoded = encode_tasks(&tasks);
    let decoded = decode_tasks(&encoded).unwrap();
    assert_eq!(decoded, tasks);
}

#[test]
fn users_round_trip() {
    let users = vec![
        user("alice", "pw1"),
        user("bob with spaces", "p\nw\"x\\y"),
        user("çünî", ""),
    ];
    let encoded = encode_users(&users);
    let decoded = decode_users(&encoded).unwrap();
    assert_eq!(decoded, users);
}

#[test]
fn decode_empty_documents() {
    assert_eq!(decode_tasks("{}").unwrap(), Vec::<Task>::new());
    assert_eq!(decode_users("{}").unwrap(), Vec::<User>::new());
}

#[test]
fn decode_rejects_malformed_documents() {
    assert_eq!(decode_tasks("").unwrap_err(), Error::CorruptState);
    assert_eq!(decode_tasks("not json").unwrap_err(), Error::CorruptState);
    assert_eq!(decode_tasks("{").unwrap_err(), Error::CorruptState);
    assert_eq!(decode_tasks("[]").unwrap_err(), Error::CorruptState);
    // Truncated document.
    assert_eq!(
        decode_tasks("{\"1\":{\"id\":1,\"title\":\"x\"").unwrap_err(),
        Error::CorruptState
    );
    // The key must repeat the record's id.
    assert_eq!(
        decode_tasks(
            "{\"2\":{\"id\":1,\"title\":\"a\",\"description\":\"b\",\"completed\":false,\"created_at\":0,\"user_id\":\"u\"}}"
        )
        .unwrap_err(),
        Error::CorruptState
    );
    // Trailing garbage after the closing brace.
    assert_eq!(decode_tasks("{}x").unwrap_err(), Error::CorruptState);
    assert_eq!(decode_users("{\"a\":{\"username\":\"b\",\"password\":\"c\"}}").unwrap_err(), Error::CorruptState);
}

#[test]
fn encoded_tasks_are_valid_json_for_serde() {
    let tasks = vec![
        task(1, "Buy milk", "2% \" \\ milk\n", false, 1700000000, "alice"),
        task(3, "Walk", "the dog", true, -7, "bob"),
    ];
    let s = encode_tasks(&tasks);
    let value: serde_json::Value = serde_json::from_str(&s).unwrap();
    let obj = value.as_object().unwrap();
    assert_eq!(obj.len(), 2);
    let first = obj.get("1").unwrap();
    assert_eq!(first.get("id").unwrap().as_u64(), Some(1));
    assert_eq!(first.get("title").unwrap().as_str(), Some("Buy milk"));
    assert_eq!(first.get("description").unwrap().as_str(), Some("2% \" \\ milk\n"));
    assert_eq!(first.get("completed").unwrap().as_bool(), Some(false));
    assert_eq!(first.get("created_at").unwrap().as_i64(), Some(1700000000));
    assert_eq!(first.get("user_id").unwrap().as_str(), Some("alice"));
    let second = obj.get("3").unwrap();
    assert_eq!(second.get("completed").unwrap().as_bool(), Some(true));
    assert_eq!(second.get("created_at").unwrap().as_i64(), Some(-7));
}

#[test]
fn encoded_users_are_valid_json_for_serde() {
    let users = vec![user("alice", "pw\"1")];
    let s = encode_users(&users);
    let value: serde_json::Value = serde_json::from_str(&s).unwrap();
    let obj = value.as_object().unwrap();
    let rec = obj.get("alice").unwrap();
    assert_eq!(rec.get("username").unwrap().as_str(), Some("alice"));
    assert_eq!(rec.get("password").unwrap().as_str(), Some("pw\"1"));
}

#[test]
fn save_load_and_continue_allocating() {
    // A store built through the operations, persisted, reloaded: the data
    // survives and the id counter continues past the persisted maximum.
    let mut app = TodoApp::new();
    app.register(&"alice".to_string(), &"pw".to_string()).unwrap();
    app.login(&"alice".to_string(), &"pw".to_string()).unwrap();
    app.add_task(&"one".to_string(), &"d1".to_string()).unwrap();
    app.add_task(&"two".to_string(), &"d2".to_string()).unwrap();
    app.delete_task(1).unwrap();
    let tasks_doc = encode_tasks(&app.tasks);
    let users_doc = encode_users(&app.users);

    let tasks = decode_tasks(&tasks_doc).unwrap();
    let users = decode_users(&users_doc).unwrap();
    assert_eq!(tasks, app.tasks);
    assert_eq!(users, app.users);
    let mut reloaded = TodoApp::from_collections(tasks, users).unwrap();
    reloaded.login(&"alice".to_string(), &"pw".to_string()).unwrap();
    assert_eq!(reloaded.add_task(&"three".to_string(), &"d3".to_string()), Ok(3));
    let listed = reloaded.list_tasks().unwrap();
    assert_eq!(listed.len(), 2);
    assert_eq!(listed[0].title, "two");
    assert_eq!(listed[1].title, "three");
}
