use abbr::entry::{Entry, Item};
use abbr::storage::{Storage, StorageError};

fn text(s: &str) -> String {
    String::from(s)
}

fn entry(acronym: &str, names: &[&str]) -> Entry {
    let mut items = Vec::new();
    for name in names {
        items.push(Item::new(text(name), None));
    }
    Entry::new(text(acronym), items)
}

fn problem(records: Vec<(String, Entry)>) -> String {
    match Storage::from_records(records) {
        Err(StorageError::ParsingProblem(text)) => text,
        other => panic!("expected a parsing problem, got {:?}", other),
    }
}

#[test]
fn records_round_trip() {
    let mut storage = Storage::new();
    storage.put(text("CPU"), text("Central Processing Unit"), None).unwrap();
    storage.put(text("CPU"), text("Cost Per Unit"), Some(text("accounting"))).unwrap();
    storage.put(text("GPU"), text("Graphics Processing Unit"), None).unwrap();
    let records = storage.to_records();
    assert_eq!(records.len(), 2);
    let again = Storage::from_records(records).unwrap();
    assert_eq!(
        again.get("CPU").to_string(),
        "CPU is one of the following:\n 1) Central Processing Unit\n 2) Cost Per Unit: accounting"
    );
    assert_eq!(again.get("GPU").to_string(), "GPU:\n 1) Graphics Processing Unit");
    assert_eq!(again.to_records().len(), 2);
}

#[test]
fn records_hold_key_and_entry() {
    let mut storage = Storage::new();
    storage.put(text("CPU"), text("Central Processing Unit"), Some(text("the chip"))).unwrap();
    let records = storage.to_records();
    assert_eq!(records.len(), 1);
    assert_eq!(records[0].0, "CPU");
    assert_eq!(records[0].1.acronym, "CPU");
    assert_eq!(records[0].1.items.len(), 1);
    assert_eq!(records[0].1.items[0].name, "Central Processing Unit");
    assert_eq!(records[0].1.items[0].description, Some(text("the chip")));
}

#[test]
fn no_records_make_an_empty_storage() {
    let storage = Storage::from_records(Vec::new()).unwrap();
    assert!(storage.to_records().is_empty());
    assert!(Storage::new().to_records().is_empty());
}

#[test]
fn key_must_be_the_abbreviation() {
    let records = vec![(text("CPU"), entry("GPU", &["Graphics Processing Unit"]))];
    assert_eq!(problem(records), "key CPU does not match acronym GPU");
}

#[test]
fn record_must_have_items() {
    let records = vec![
        (text("GPU"), entry("GPU", &["Graphics Processing Unit"])),
        (text("CPU"), entry("CPU", &[])),
    ];
    assert_eq!(problem(records), "entry CPU has no items");
}

#[test]
fn key_must_not_come_twice() {
    let records = vec![
        (text("CPU"), entry("CPU", &["Central Processing Unit"])),
        (text("GPU"), entry("GPU", &["Graphics Processing Unit"])),
        (text("CPU"), entry("CPU", &["Cost Per Unit"])),
    ];
    assert_eq!(problem(records), "entry CPU appears more than once");
}

#[test]
fn first_fault_is_reported() {
    let records = vec![
        (text("A"), entry("A", &[])),
        (text("B"), entry("C", &["x"])),
    ];
    assert_eq!(problem(records), "entry A has no items");
}

#[test]
fn a_file_without_content_is_an_empty_storage() {
    let storage = Storage::from_blank("").unwrap();
    assert!(storage.to_records().is_empty());
    assert!(Storage::from_blank("{}").is_none());
    assert!(Storage::from_blank(" ").is_none());
    assert!(Storage::from_blank("not json").is_none());
}

#[test]
fn record_must_not_repeat_a_name() {
    let records = vec![
        (text("GPU"), entry("GPU", &["Graphics Processing Unit"])),
        (text("CPU"), entry("CPU", &["Central Processing Unit", "Cost Per Unit", "Central Processing Unit"])),
    ];
    assert_eq!(problem(records), "entry CPU has two items of one name");
}

#[test]
fn repeated_key_is_reported_before_a_repeated_name() {
    let records = vec![
        (text("CPU"), entry("CPU", &["Central Processing Unit"])),
        (text("CPU"), entry("CPU", &["x", "x"])),
    ];
    assert_eq!(problem(records), "entry CPU appears more than once");
}

#[test]
fn records_in_another_order_make_the_same_storage() {
    let mut storage = Storage::new();
    storage.put(text("CPU"), text("Central Processing Unit"), None).unwrap();
    storage.put(text("GPU"), text("Graphics Processing Unit"), None).unwrap();
    storage.put(text("APU"), text("Auxiliary Power Unit"), Some(text("aircraft"))).unwrap();
    let mut records = storage.to_records();
    records.reverse();
    let again = Storage::from_records(records).unwrap();
    for key in ["CPU", "GPU", "APU", "TPU"] {
        assert_eq!(again.get(key).to_string(), storage.get(key).to_string());
    }
}
