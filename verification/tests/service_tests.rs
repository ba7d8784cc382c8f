use greeter::text::to_upper;
use greeter::users_database::{User, UsersDatabase};
use greeter::users_service::{
    filter_failed_rows, greeting_response, update_response, UserServiceInstance,
};

fn fresh_service() -> UserServiceInstance {
    UserServiceInstance::new(UsersDatabase::new())
}

#[test]
fn to_upper_exact_values() {
    assert_eq!(to_upper("alice"), "ALICE");
    assert_eq!(to_upper("Bob"), "BOB");
    assert_eq!(to_upper("ALREADY"), "ALREADY");
    assert_eq!(to_upper("mixed Case 42!"), "MIXED CASE 42!");
    assert_eq!(to_upper(""), "");
}

#[test]
fn default_greeting_for_unknown_name() {
    let svc = fresh_service();
    assert_eq!(svc.get_greeting("alice"), "HELLO ALICE!");
    assert_eq!(svc.get_greeting("World"), "HELLO WORLD!");
}

#[test]
fn greeting_after_update_uses_stored_greeting_and_request_name() {
    let mut svc = fresh_service();
    svc.update_user("alice", "hey");
    assert_eq!(svc.get_greeting("alice"), "HEY alice!");
}

#[test]
fn fresh_store_scenario() {
    let mut svc = fresh_service();
    assert_eq!(svc.get_greeting("alice"), "HELLO ALICE!");
    svc.update_user("alice", "hey");
    assert_eq!(svc.get_greeting("alice"), "HEY alice!");
}

#[test]
fn update_is_idempotent() {
    let mut once = fresh_service();
    once.update_user("bob", "hi");
    let mut twice = fresh_service();
    twice.update_user("bob", "hi");
    twice.update_user("bob", "hi");

    let rows_once = once.get_all_users();
    let rows_twice = twice.get_all_users();
    assert_eq!(rows_once.len(), 1);
    assert_eq!(rows_twice.len(), 1);
    assert_eq!(rows_once[0].name, rows_twice[0].name);
    assert_eq!(rows_once[0].greeting, rows_twice[0].greeting);
    assert_eq!(once.get_greeting("bob"), twice.get_greeting("bob"));
}

#[test]
fn update_overwrites_instead_of_duplicating() {
    let mut svc = fresh_service();
    svc.update_user("bob", "hi");
    svc.update_user("bob", "yo");
    let rows = svc.get_all_users();
    assert_eq!(rows.len(), 1);
    assert_eq!(rows[0].name, "BOB");
    assert_eq!(rows[0].greeting, "YO");
}

#[test]
fn name_matching_is_case_insensitive() {
    let mut svc = fresh_service();
    svc.update_user("Bob", "hi");
    assert_eq!(svc.get_greeting("BOB"), "HI BOB!");
    assert_eq!(svc.get_greeting("bob"), "HI bob!");
    let rows = svc.get_all_users();
    assert_eq!(rows.len(), 1);
}

#[test]
fn sequential_updates_to_one_name_leave_one_row_last_writer_wins() {
    let mut svc = fresh_service();
    svc.update_user("carol", "hi");
    svc.update_user("CAROL", "yo");
    let rows = svc.get_all_users();
    assert_eq!(rows.len(), 1);
    assert_eq!(rows[0].name, "CAROL");
    assert_eq!(rows[0].greeting, "YO");
}

#[test]
fn get_all_users_yields_exactly_the_stored_records() {
    let mut svc = fresh_service();
    svc.update_user("a", "1");
    svc.update_user("b", "2");
    let rows = svc.get_all_users();
    assert_eq!(rows.len(), 2);
    let mut pairs: Vec<(String, String)> =
        rows.iter().map(|u| (u.name.clone(), u.greeting.clone())).collect();
    pairs.sort();
    assert_eq!(pairs[0], ("A".to_string(), "1".to_string()));
    assert_eq!(pairs[1], ("B".to_string(), "2".to_string()));
}

#[test]
fn get_all_users_on_empty_store_is_empty() {
    let svc = fresh_service();
    assert_eq!(svc.get_all_users().len(), 0);
}

#[test]
fn greeting_response_found_record() {
    let u = User { name: "ALICE".to_string(), greeting: "HEY".to_string() };
    let r = greeting_response("alice", Ok(Some(u)));
    assert_eq!(r.unwrap(), "HEY alice!");
}

#[test]
fn greeting_response_missing_record_falls_back() {
    let r = greeting_response("alice", Ok(None));
    assert_eq!(r.unwrap(), "HELLO ALICE!");
}

#[test]
fn greeting_response_storage_failure_becomes_internal_error() {
    let r = greeting_response("alice", Err("connection reset".to_string()));
    let e = r.err().expect("storage failure must surface as an error");
    assert_eq!(e.message, "connection reset");
}

#[test]
fn update_response_maps_outcomes() {
    assert!(update_response(Ok(())).is_ok());
    let e = update_response(Err("disk full".to_string())).err().unwrap();
    assert_eq!(e.message, "disk full");
}

#[test]
fn failed_rows_are_dropped_and_order_kept() {
    let rows: Vec<Result<User, String>> = vec![
        Ok(User { name: "A".to_string(), greeting: "1".to_string() }),
        Err("torn row".to_string()),
        Ok(User { name: "B".to_string(), greeting: "2".to_string() }),
    ];
    let kept = filter_failed_rows(&rows);
    assert_eq!(kept.len(), 2);
    assert_eq!(kept[0].name, "A");
    assert_eq!(kept[0].greeting, "1");
    assert_eq!(kept[1].name, "B");
    assert_eq!(kept[1].greeting, "2");
}

#[test]
fn all_rows_failing_yields_empty_stream() {
    let rows: Vec<Result<User, String>> =
        vec![Err("one".to_string()), Err("two".to_string())];
    assert_eq!(filter_failed_rows(&rows).len(), 0);
}

#[test]
fn database_get_user_normalizes_lookup_and_storage() {
    let mut db = UsersDatabase::new();
    assert!(db.get_user("dave").is_none());
    db.update_user(&User { name: "Dave".to_string(), greeting: "howdy".to_string() });
    let u = db.get_user("dAvE").expect("record must be found case-insensitively");
    assert_eq!(u.name, "DAVE");
    assert_eq!(u.greeting, "HOWDY");
}
