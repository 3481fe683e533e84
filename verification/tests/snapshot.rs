use lynxspark::storage::snapshot::{decode_line, encode_snapshot};
use lynxspark::storage::{Record, Storage};

fn chars(s: &str) -> Vec<char> {
    s.chars().collect()
}

fn tuples(table: &Storage) -> Vec<(String, String, Option<u64>, u64)> {
    table.records().into_iter().map(|r| (r.key, r.value, r.exp_time, r.last_acc_time)).collect()
}

#[test]
fn snapshot_of_an_empty_table_is_empty() {
    let table = Storage::new();
    assert_eq!(table.save_to_text(), "");
    assert_eq!(encode_snapshot(&Vec::new()), "");
}

#[test]
fn snapshot_line_has_four_fields() {
    let mut table = Storage::new();
    table.set(Record::new("k", "v", Some(30), 100));
    assert_eq!(table.save_to_text(), "k\0v\0130\0100\n");
}

#[test]
fn snapshot_writes_zero_for_no_expiry() {
    let mut table = Storage::new();
    table.set(Record::new("k", "v", None, 100));
    assert_eq!(table.save_to_text(), "k\0v\00\0100\n");
}

#[test]
fn snapshot_lists_records_in_order() {
    let mut table = Storage::new();
    table.set(Record::new("b", "2", None, 7));
    table.set(Record::new("a", "1", Some(5), 0));
    table.set(Record::new("", "", None, u64::MAX));
    assert_eq!(table.save_to_text(), "b\u{0}2\u{0}0\u{0}7\na\u{0}1\u{0}5\u{0}0\n\u{0}\u{0}0\u{0}18446744073709551615\n");
}

#[test]
fn encode_snapshot_of_given_records() {
    let records = vec![
        Record { key: "x".to_string(), value: "y z".to_string(), exp_time: Some(1700000000), last_acc_time: 1699999999 },
        Record { key: "é".to_string(), value: "€".to_string(), exp_time: None, last_acc_time: 12 },
    ];
    assert_eq!(encode_snapshot(&records), "x\0y z\01700000000\01699999999\né\0€\00\012\n");
}

#[test]
fn decode_line_reads_a_record() {
    let r = decode_line(&chars("k\0v\0130\0100")).unwrap();
    assert_eq!(r.key, "k");
    assert_eq!(r.value, "v");
    assert_eq!(r.exp_time, Some(130));
    assert_eq!(r.last_acc_time, 100);
}

#[test]
fn decode_line_reads_zero_as_never() {
    let r = decode_line(&chars("k\0v\00\0100")).unwrap();
    assert_eq!(r.exp_time, None);
    let r = decode_line(&chars("k\0v\0000\0100")).unwrap();
    assert_eq!(r.exp_time, None);
}

#[test]
fn decode_line_accepts_a_plus_sign_and_leading_zeros() {
    let r = decode_line(&chars("k\0v\0+5\0007")).unwrap();
    assert_eq!(r.exp_time, Some(5));
    assert_eq!(r.last_acc_time, 7);
}

#[test]
fn decode_line_skips_a_wrong_number_of_fields() {
    assert!(decode_line(&chars("")).is_none());
    assert!(decode_line(&chars("k")).is_none());
    assert!(decode_line(&chars("k\0v")).is_none());
    assert!(decode_line(&chars("k\0v\01")).is_none());
    assert!(decode_line(&chars("k\0v\01\02\03")).is_none());
    assert!(decode_line(&chars("k\0v\01\02\0")).is_none());
}

#[test]
fn decode_line_skips_fields_that_are_no_numbers() {
    assert!(decode_line(&chars("k\0v\0x\02")).is_none());
    assert!(decode_line(&chars("k\0v\01\0")).is_none());
    assert!(decode_line(&chars("k\0v\0\02")).is_none());
    assert!(decode_line(&chars("k\0v\0-1\02")).is_none());
    assert!(decode_line(&chars("k\0v\01 \02")).is_none());
    assert!(decode_line(&chars("k\0v\01\02\r")).is_none());
    assert!(decode_line(&chars("k\0v\0+\02")).is_none());
    assert!(decode_line(&chars("k\0v\01.5\02")).is_none());
}

#[test]
fn decode_line_skips_numbers_that_do_not_fit() {
    assert!(decode_line(&chars("k\0v\018446744073709551616\02")).is_none());
    assert!(decode_line(&chars("k\0v\01\099999999999999999999999")).is_none());
    let r = decode_line(&chars("k\0v\018446744073709551615\018446744073709551615")).unwrap();
    assert_eq!(r.exp_time, Some(u64::MAX));
    assert_eq!(r.last_acc_time, u64::MAX);
}

#[test]
fn decode_line_keeps_empty_key_and_value() {
    let r = decode_line(&chars("\0\01\02")).unwrap();
    assert_eq!(r.key, "");
    assert_eq!(r.value, "");
}

#[test]
fn load_line_tells_whether_it_loaded() {
    let mut table = Storage::new();
    assert!(table.load_line("k\0v\00\05"));
    assert!(!table.load_line("garbage"));
    assert!(!table.load_line(""));
    assert_eq!(tuples(&table), vec![("k".to_string(), "v".to_string(), None, 5)]);
}

#[test]
fn load_skips_malformed_lines() {
    let mut table = Storage::new();
    table.load_from_text("a\01\00\05\nnot a record\n\nb\02\0x\05\nc\03\09\04\n");
    assert_eq!(
        tuples(&table),
        vec![("a".to_string(), "1".to_string(), None, 5), ("c".to_string(), "3".to_string(), Some(9), 4)]
    );
}

#[test]
fn load_reads_a_last_line_without_line_feed() {
    let mut table = Storage::new();
    table.load_from_text("a\01\00\05\nb\02\07\06");
    assert_eq!(table.len(), 2);
    assert_eq!(tuples(&table)[1], ("b".to_string(), "2".to_string(), Some(7), 6));
}

#[test]
fn load_drops_the_carriage_return_before_a_line_feed() {
    let mut table = Storage::new();
    table.load_from_text("a\01\00\05\r\nb\02\07\06\r\n");
    assert_eq!(
        tuples(&table),
        vec![("a".to_string(), "1".to_string(), None, 5), ("b".to_string(), "2".to_string(), Some(7), 6)]
    );
}

#[test]
fn load_keeps_a_carriage_return_that_ends_the_text() {
    let mut table = Storage::new();
    table.load_from_text("a\01\00\05\r");
    assert_eq!(table.len(), 0);
}

#[test]
fn load_of_an_empty_text_loads_nothing() {
    let mut table = Storage::new();
    table.load_from_text("");
    assert_eq!(table.len(), 0);
}

#[test]
fn load_lets_a_later_line_win() {
    let mut table = Storage::new();
    table.load_from_text("a\01\00\05\nb\02\00\05\na\03\08\09\n");
    assert_eq!(
        tuples(&table),
        vec![("a".to_string(), "3".to_string(), Some(8), 9), ("b".to_string(), "2".to_string(), None, 5)]
    );
}

#[test]
fn load_adds_to_what_the_table_holds() {
    let mut table = Storage::new();
    table.set(Record::new("z", "0", None, 1));
    table.load_from_text("a\01\00\05\n");
    assert_eq!(table.len(), 2);
    assert_eq!(tuples(&table)[0].0, "z");
}

#[test]
fn load_does_not_purge_what_has_expired() {
    let mut table = Storage::new();
    table.load_from_text("old\0v\05\01\n");
    assert_eq!(table.len(), 1);
    assert!(table.get_at("old", 100).is_none());
    assert_eq!(table.len(), 0);
}

#[test]
fn snapshot_round_trip() {
    let mut table = Storage::new();
    table.set(Record::new("forever", "a value", None, 1700000000));
    table.set(Record::new("soon", "x=y&z", Some(60), 1700000001));
    table.set(Record::new("", "", Some(u64::MAX), 3));
    table.set(Record::new("tab\there", "carriage\rreturn", Some(1), 0));
    table.set(Record::new("ключ", "значение €", None, u64::MAX));
    table.get_at("soon", 1700000030);
    let text = table.save_to_text();
    let mut loaded = Storage::new();
    loaded.load_from_text(&text);
    assert_eq!(tuples(&loaded), tuples(&table));
    assert_eq!(loaded.save_to_text(), text);
    assert_eq!(tuples(&loaded)[0], ("forever".to_string(), "a value".to_string(), None, 1700000000));
    assert_eq!(tuples(&loaded)[1], ("soon".to_string(), "x=y&z".to_string(), Some(1700000061), 1700000030));
}

#[test]
fn snapshot_round_trip_line_by_line() {
    let mut table = Storage::new();
    table.set(Record::new("a", "1", None, 10));
    table.set(Record::new("b", "2", Some(5), 10));
    let text = table.save_to_text();
    let mut loaded = Storage::new();
    for line in text.lines() {
        assert!(loaded.load_line(line));
    }
    assert_eq!(tuples(&loaded), tuples(&table));
}

#[test]
fn never_round_trips_to_never() {
    let mut table = Storage::new();
    table.set(Record::new("k", "v", None, 100));
    let mut loaded = Storage::new();
    loaded.load_from_text(&table.save_to_text());
    loaded.periodic_expirer_at(u64::MAX);
    loaded.idle_expirer_at(u64::MAX);
    assert_eq!(loaded.get_at("k", u64::MAX).unwrap().exp_time, None);
}

#[test]
fn value_with_a_line_feed_does_not_round_trip() {
    let mut table = Storage::new();
    table.set(Record::new("k", "two\nlines", None, 100));
    let mut loaded = Storage::new();
    loaded.load_from_text(&table.save_to_text());
    assert_eq!(loaded.len(), 0);
}
