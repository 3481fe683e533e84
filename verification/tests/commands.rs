use lynxspark::command::{del, get, keys, Command};
use lynxspark::storage::manager::{
    add_item, delete_item, get_item, initialize, keys_item_search, Facade, StorageError,
};
use lynxspark::storage::Record;

const OK: &str = "HTTP/1.1 200 OK\r\nContent-Type: text/plain\r\n\r\n";
const BAD: &str = "HTTP/1.1 400 Bad Request\r\nContent-Type: text/plain\r\n\r\n";
const ERROR: &str = "HTTP/1.1 500 Internal Server Error\r\nContent-Type: text/plain\r\n\r\n";

fn ready() -> Facade {
    let mut facade = Facade::new();
    initialize(&mut facade);
    facade
}

fn tuples(facade: &Facade) -> Vec<(String, String, Option<u64>, u64)> {
    facade
        .table
        .as_ref()
        .unwrap()
        .records()
        .into_iter()
        .map(|r| (r.key, r.value, r.exp_time, r.last_acc_time))
        .collect()
}

#[test]
fn paths_of_the_commands() {
    assert_eq!(lynxspark::command::set::path(), "/set");
    assert_eq!(get::path(), "/get");
    assert_eq!(del::path(), "/del");
    assert_eq!(keys::path(), "/keys");
}

#[test]
fn facade_starts_without_a_table() {
    let facade = Facade::new();
    assert!(facade.table.is_none());
}

#[test]
fn initialize_gives_an_empty_table_once() {
    let mut facade = Facade::new();
    initialize(&mut facade);
    assert_eq!(facade.table.as_ref().unwrap().len(), 0);
    add_item(&mut facade, "k", "v", None, 1).unwrap();
    initialize(&mut facade);
    assert_eq!(tuples(&facade), vec![("k".to_string(), "v".to_string(), None, 1)]);
}

#[test]
fn operations_before_initialize_fail() {
    let mut facade = Facade::new();
    assert_eq!(add_item(&mut facade, "k", "v", None, 1), Err(StorageError::Uninitialized));
    assert_eq!(get_item(&mut facade, "k", 1), Err(StorageError::Uninitialized));
    assert_eq!(delete_item(&mut facade, "k"), Err(StorageError::Uninitialized));
    assert_eq!(keys_item_search(&mut facade, "*", 1), Err(StorageError::Uninitialized));
    assert!(facade.table.is_none());
}

#[test]
fn message_of_the_error() {
    assert_eq!(StorageError::Uninitialized.message(), "Storage is not initialized.");
}

#[test]
fn add_item_then_get_item() {
    let mut facade = ready();
    assert_eq!(add_item(&mut facade, "k", "v", None, 5), Ok(()));
    assert_eq!(get_item(&mut facade, "k", 5), Ok(Some("v".to_string())));
    assert_eq!(get_item(&mut facade, "k", u64::MAX), Ok(Some("v".to_string())));
    assert_eq!(get_item(&mut facade, "other", 5), Ok(None));
}

#[test]
fn add_item_with_a_lifetime() {
    let mut facade = ready();
    add_item(&mut facade, "k", "v", Some(10), 5).unwrap();
    assert_eq!(tuples(&facade), vec![("k".to_string(), "v".to_string(), Some(15), 5)]);
    assert_eq!(get_item(&mut facade, "k", 15), Ok(Some("v".to_string())));
    assert_eq!(tuples(&facade), vec![("k".to_string(), "v".to_string(), Some(15), 15)]);
    assert_eq!(get_item(&mut facade, "k", 16), Ok(None));
    assert!(tuples(&facade).is_empty());
}

#[test]
fn add_item_replaces_the_record_whole() {
    let mut facade = ready();
    add_item(&mut facade, "k", "v", Some(10), 5).unwrap();
    add_item(&mut facade, "k", "w", None, 7).unwrap();
    assert_eq!(tuples(&facade), vec![("k".to_string(), "w".to_string(), None, 7)]);
}

#[test]
fn delete_item_tells_whether_there_was_a_record() {
    let mut facade = ready();
    add_item(&mut facade, "k", "v", None, 5).unwrap();
    assert_eq!(delete_item(&mut facade, "other"), Ok(false));
    assert_eq!(delete_item(&mut facade, "k"), Ok(true));
    assert_eq!(delete_item(&mut facade, "k"), Ok(false));
    assert!(tuples(&facade).is_empty());
}

#[test]
fn keys_item_search_lists_live_keys() {
    let mut facade = ready();
    add_item(&mut facade, "a1", "v", None, 5).unwrap();
    add_item(&mut facade, "b1", "v", None, 5).unwrap();
    add_item(&mut facade, "a2", "v", Some(10), 5).unwrap();
    assert_eq!(keys_item_search(&mut facade, "a?", 15), Ok(vec!["a1".to_string(), "a2".to_string()]));
    assert_eq!(keys_item_search(&mut facade, "a?", 16), Ok(vec!["a1".to_string()]));
    assert_eq!(keys_item_search(&mut facade, "c*", 16), Ok(Vec::new()));
    assert_eq!(tuples(&facade).len(), 2);
}

#[test]
fn set_command_puts_a_permanent_record() {
    let mut facade = ready();
    assert_eq!(lynxspark::command::set::command("POST /set\r\n\r\nkey=k&value=v", &mut facade, 9), format!("{}OK", OK));
    assert_eq!(tuples(&facade), vec![("k".to_string(), "v".to_string(), None, 9)]);
}

#[test]
fn set_command_asks_for_both_fields() {
    let mut facade = ready();
    assert_eq!(
        lynxspark::command::set::command("POST /set\r\n\r\nvalue=v", &mut facade, 9),
        format!("{}Missing key parameter", BAD)
    );
    assert_eq!(
        lynxspark::command::set::command("POST /set\r\n\r\nkey=k", &mut facade, 9),
        format!("{}Missing value parameter", BAD)
    );
    assert_eq!(lynxspark::command::set::command("", &mut facade, 9), format!("{}Missing key parameter", BAD));
    assert!(tuples(&facade).is_empty());
}

#[test]
fn set_command_takes_empty_fields() {
    let mut facade = ready();
    assert_eq!(lynxspark::command::set::command("POST /set\r\n\r\nkey&value", &mut facade, 9), format!("{}OK", OK));
    assert_eq!(tuples(&facade), vec![(String::new(), String::new(), None, 9)]);
}

#[test]
fn set_command_before_initialize() {
    let mut facade = Facade::new();
    assert_eq!(
        lynxspark::command::set::command("POST /set\r\n\r\nkey=k&value=v", &mut facade, 9),
        format!("{}Error adding item to storage: Storage is not initialized.", ERROR)
    );
    assert!(facade.table.is_none());
}

#[test]
fn get_command_answers_with_the_value() {
    let mut facade = ready();
    add_item(&mut facade, "k", "the value", Some(10), 5).unwrap();
    assert_eq!(get::command("GET /get\r\n\r\nkey=k", &mut facade, 8), format!("{}the value", OK));
    assert_eq!(tuples(&facade)[0].3, 8);
    assert_eq!(get::command("GET /get\r\n\r\nkey=k", &mut facade, 16), format!("{}NOT_FOUND", OK));
    assert!(tuples(&facade).is_empty());
    assert_eq!(get::command("GET /get\r\n\r\nkey=zz", &mut facade, 16), format!("{}NOT_FOUND", OK));
}

#[test]
fn get_command_asks_for_the_key() {
    let mut facade = ready();
    assert_eq!(
        get::command("GET /get\r\n\r\nvalue=k", &mut facade, 8),
        format!("{}Missing key parameter", BAD)
    );
}

#[test]
fn get_command_before_initialize() {
    let mut facade = Facade::new();
    assert_eq!(get::command("GET /get\r\n\r\nkey=k", &mut facade, 8), format!("{}NOT_FOUND", OK));
    assert!(facade.table.is_none());
}

#[test]
fn del_command_answers_ok_either_way() {
    let mut facade = ready();
    add_item(&mut facade, "k", "v", None, 5).unwrap();
    add_item(&mut facade, "l", "w", None, 5).unwrap();
    assert_eq!(del::command("DELETE /del\r\n\r\nkey=k", &mut facade), format!("{}OK", OK));
    assert_eq!(del::command("DELETE /del\r\n\r\nkey=k", &mut facade), format!("{}OK", OK));
    assert_eq!(tuples(&facade), vec![("l".to_string(), "w".to_string(), None, 5)]);
}

#[test]
fn del_command_asks_for_the_key() {
    let mut facade = ready();
    assert_eq!(
        del::command("DELETE /del\r\n\r\n", &mut facade),
        format!("{}Missing key parameter", BAD)
    );
}

#[test]
fn del_command_before_initialize() {
    let mut facade = Facade::new();
    assert_eq!(
        del::command("DELETE /del\r\n\r\nkey=k", &mut facade),
        format!("{}Error adding item to storage: Storage is not initialized.", ERROR)
    );
}

#[test]
fn keys_command_numbers_the_keys() {
    let mut facade = ready();
    for i in 0..12 {
        add_item(&mut facade, &format!("k{}", i), "v", None, 5).unwrap();
    }
    add_item(&mut facade, "other", "v", None, 5).unwrap();
    assert_eq!(
        keys::command("GET /keys\r\n\r\npattern=k*", &mut facade, 6),
        format!(
            "{}1) \"k0\"\n2) \"k1\"\n3) \"k2\"\n4) \"k3\"\n5) \"k4\"\n6) \"k5\"\n7) \"k6\"\n8) \"k7\"\n9) \"k8\"\n10) \"k9\"\n11) \"k10\"\n12) \"k11\"",
            OK
        )
    );
    assert_eq!(keys::command("GET /keys\r\n\r\npattern=o*", &mut facade, 6), format!("{}1) \"other\"", OK));
}

#[test]
fn keys_command_reads_percent_escapes_of_the_pattern() {
    let mut facade = ready();
    add_item(&mut facade, "a b", "v", None, 5).unwrap();
    add_item(&mut facade, "a*b", "v", None, 5).unwrap();
    assert_eq!(
        keys::command("GET /keys\r\n\r\npattern=a%20b", &mut facade, 6),
        format!("{}1) \"a b\"", OK)
    );
    assert_eq!(
        keys::command("GET /keys\r\n\r\npattern=a%5C%2Ab", &mut facade, 6),
        format!("{}1) \"a*b\"", OK)
    );
    assert_eq!(
        keys::command("GET /keys\r\n\r\npattern=a%2Ab", &mut facade, 6),
        format!("{}1) \"a b\"\n2) \"a*b\"", OK)
    );
}

#[test]
fn keys_command_without_a_match() {
    let mut facade = ready();
    add_item(&mut facade, "gone", "v", Some(1), 5).unwrap();
    assert_eq!(
        keys::command("GET /keys\r\n\r\npattern=*", &mut facade, 7),
        format!("{}No matching keys found.", OK)
    );
    assert!(tuples(&facade).is_empty());
    assert_eq!(
        keys::command("GET /keys\r\n\r\nkey=*", &mut facade, 7),
        format!("{}Missing key parameter", BAD)
    );
}

#[test]
fn keys_command_before_initialize() {
    let mut facade = Facade::new();
    assert_eq!(
        keys::command("GET /keys\r\n\r\npattern=*", &mut facade, 7),
        format!("{}Storage is not initialized.", ERROR)
    );
}

#[test]
fn run_dispatches_to_the_command() {
    let mut facade = ready();
    facade.table.as_mut().unwrap().set(Record::new("k", "v", None, 1));
    assert_eq!(Command::GetValue.run("X\r\n\r\nkey=k", &mut facade, 2), format!("{}v", OK));
    assert_eq!(Command::ListKeys.run("X\r\n\r\npattern=?", &mut facade, 2), format!("{}1) \"k\"", OK));
    assert_eq!(Command::SetValue.run("X\r\n\r\nkey=k&value=w", &mut facade, 3), format!("{}OK", OK));
    assert_eq!(Command::GetValue.run("X\r\n\r\nkey=k", &mut facade, 4), format!("{}w", OK));
    assert_eq!(Command::DelValue.run("X\r\n\r\nkey=k", &mut facade, 5), format!("{}OK", OK));
    assert_eq!(Command::GetValue.run("X\r\n\r\nkey=k", &mut facade, 6), format!("{}NOT_FOUND", OK));
}
