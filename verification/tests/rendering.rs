use abbr::decimal::to_decimal;
use abbr::entry::{names_are_distinct, Entry, Item};
use abbr::storage::StorageError;

fn text(s: &str) -> String {
    String::from(s)
}

#[test]
fn decimal_of_small_and_large_numbers() {
    assert_eq!(to_decimal(0), "0");
    assert_eq!(to_decimal(7), "7");
    assert_eq!(to_decimal(9), "9");
    assert_eq!(to_decimal(10), "10");
    assert_eq!(to_decimal(101), "101");
    assert_eq!(to_decimal(12345), "12345");
    assert_eq!(to_decimal(usize::MAX), format!("{}", usize::MAX));
}

#[test]
fn item_renders_with_and_without_description() {
    assert_eq!(Item::new(text("Central Processing Unit"), None).to_string(), "Central Processing Unit");
    assert_eq!(
        Item::new(text("Central Processing Unit"), Some(text("the chip"))).to_string(),
        "Central Processing Unit: the chip"
    );
    assert_eq!(Item::new(text("x"), Some(text(""))).to_string(), "x: ");
}

#[test]
fn entry_numbers_items_from_one() {
    let mut items = Vec::new();
    for i in 0..12 {
        items.push(Item::new(format!("meaning {}", i), None));
    }
    let entry = Entry::new(text("ABC"), items);
    let shown = entry.to_string();
    let lines: Vec<&str> = shown.split('\n').collect();
    assert_eq!(lines.len(), 13);
    assert_eq!(lines[0], "ABC is one of the following:");
    assert_eq!(lines[1], " 1) meaning 0");
    assert_eq!(lines[10], " 10) meaning 9");
    assert_eq!(lines[12], " 12) meaning 11");
}

#[test]
fn entry_without_items_has_no_matches() {
    assert_eq!(Entry::new(text("ABC"), Vec::new()).to_string(), "ABC has no matches");
}

#[test]
fn add_item_appends_and_refuses_duplicates() {
    let mut entry = Entry::new(text("CPU"), Vec::new());
    entry.add_item(text("Central Processing Unit"), None).unwrap();
    entry.add_item(text("Cost Per Unit"), Some(text("accounting"))).unwrap();
    assert!(entry.has_item(&text("Cost Per Unit")));
    assert!(!entry.has_item(&text("cost per unit")));
    let again = entry.add_item(text("Cost Per Unit"), None);
    match again {
        Err(StorageError::DuplicatePut(name)) => assert_eq!(name, "Cost Per Unit"),
        other => panic!("expected a duplicate, got {:?}", other),
    }
    assert_eq!(entry.items.len(), 2);
    assert_eq!(entry.items[1].description, Some(text("accounting")));
}

#[test]
fn clone_copies_every_field() {
    let mut entry = Entry::new(text("CPU"), Vec::new());
    entry.add_item(text("Central Processing Unit"), Some(text("the chip"))).unwrap();
    entry.add_item(text("Cost Per Unit"), None).unwrap();
    let copy = entry.clone();
    assert_eq!(copy.acronym, "CPU");
    assert_eq!(copy.items.len(), 2);
    assert_eq!(copy.items[0].name, "Central Processing Unit");
    assert_eq!(copy.items[0].description, Some(text("the chip")));
    assert_eq!(copy.items[1].name, "Cost Per Unit");
    assert_eq!(copy.items[1].description, None);
}

#[test]
fn each_error_has_its_line() {
    assert_eq!(StorageError::NoSuchFile.to_string(), "Tried to load a file which doesn't exist");
    assert_eq!(StorageError::NoSuchItem.to_string(), "Item does not exist in storage");
    assert_eq!(
        StorageError::AmbiguousItem.to_string(),
        "Not enough information to decide which item, please provide an id"
    );
    assert_eq!(
        StorageError::ParsingProblem(text("bad")).to_string(),
        "Failed to parse storage: bad"
    );
    assert_eq!(
        StorageError::DuplicatePut(text("Central Processing Unit")).to_string(),
        "Central Processing Unit already exists in storage"
    );
    assert_eq!(
        StorageError::Other(text("disk full")).to_string(),
        "Unexpected storage error: disk full"
    );
}

#[test]
fn other_items_are_searched_without_the_one_named() {
    let mut entry = Entry::new(text("CPU"), Vec::new());
    entry.add_item(text("Central Processing Unit"), None).unwrap();
    entry.add_item(text("Cost Per Unit"), None).unwrap();
    assert!(!entry.has_other_item(0, &text("Central Processing Unit")));
    assert!(entry.has_other_item(1, &text("Central Processing Unit")));
    assert!(entry.has_other_item(0, &text("Cost Per Unit")));
    assert!(!entry.has_other_item(1, &text("Cost Per Unit")));
    assert!(!entry.has_other_item(0, &text("Critical Patch Update")));
}

#[test]
fn distinct_names_are_told_from_repeated_ones() {
    let item = |name: &str| Item::new(text(name), None);
    assert!(names_are_distinct(&Vec::new()));
    assert!(names_are_distinct(&vec![item("a")]));
    assert!(names_are_distinct(&vec![item("a"), item("b"), item("c")]));
    assert!(!names_are_distinct(&vec![item("a"), item("a")]));
    assert!(!names_are_distinct(&vec![item("a"), item("b"), item("a")]));
    assert!(!names_are_distinct(&vec![item("a"), item("b"), item("b")]));
}
