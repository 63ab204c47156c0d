use abbr::config::{Config, DelConfig, GetConfig, ModConfig, Mode, PutConfig};
use abbr::storage::{Storage, StorageError};
use abbr::{run, run_del, run_get, run_mod, run_put};

fn text(s: &str) -> String {
    String::from(s)
}

fn cpu_with_two() -> Storage {
    let mut storage = Storage::new();
    storage.put(text("CPU"), text("Central Processing Unit"), None).unwrap();
    storage.put(text("CPU"), text("Cost Per Unit"), Some(text("accounting"))).unwrap();
    storage
}

fn put(abbr: &str, full: &str, description: Option<&str>) -> PutConfig {
    PutConfig { abbr: text(abbr), full: text(full), description: description.map(text) }
}

#[test]
fn get_without_a_file_gives_a_hint() {
    let shown = run_get(GetConfig { abbr: text("cpu") }, Err(StorageError::NoSuchFile)).unwrap();
    assert_eq!(shown, "You have yet to store any abbreviations, do so with `abbr put`");
}

#[test]
fn get_hands_other_failures_on() {
    let r = run_get(GetConfig { abbr: text("cpu") }, Err(StorageError::ParsingProblem(text("bad"))));
    match r {
        Err(StorageError::ParsingProblem(why)) => assert_eq!(why, "bad"),
        other => panic!("expected a parsing problem, got {:?}", other),
    }
}

#[test]
fn get_looks_up_the_upper_case_form() {
    let shown = run_get(GetConfig { abbr: text("cpu") }, Ok(cpu_with_two())).unwrap();
    assert_eq!(shown, "CPU is one of the following:\n 1) Central Processing Unit\n 2) Cost Per Unit: accounting");
    let absent = run_get(GetConfig { abbr: text("gpu") }, Ok(cpu_with_two())).unwrap();
    assert_eq!(absent, "GPU has no matches");
}

#[test]
fn put_without_a_file_starts_a_storage() {
    let (storage, shown) =
        run_put(put("cpu", "Central Processing Unit", None), Err(StorageError::NoSuchFile)).unwrap();
    assert_eq!(shown, "Successfully added: CPU - Central Processing Unit");
    assert_eq!(storage.get("CPU").to_string(), "CPU:\n 1) Central Processing Unit");
    assert!(storage.get("cpu").items.is_empty());
}

#[test]
fn put_adds_to_the_loaded_storage() {
    let (storage, shown) =
        run_put(put("Cpu", "Critical Patch Update", Some("oracle")), Ok(cpu_with_two())).unwrap();
    assert_eq!(shown, "Successfully added: CPU - Critical Patch Update");
    let entry = storage.get("CPU");
    assert_eq!(entry.items.len(), 3);
    assert_eq!(entry.items[2].name, "Critical Patch Update");
    assert_eq!(entry.items[2].description, Some(text("oracle")));
}

#[test]
fn put_of_a_duplicate_fails() {
    let r = run_put(put("cpu", "Cost Per Unit", None), Ok(cpu_with_two()));
    match r {
        Err(StorageError::DuplicatePut(name)) => assert_eq!(name, "Cost Per Unit"),
        other => panic!("expected a duplicate, got {:?}", other),
    }
}

#[test]
fn put_hands_other_failures_on() {
    let r = run_put(put("cpu", "x", None), Err(StorageError::Other(text("disk"))));
    assert!(matches!(r, Err(StorageError::Other(_))));
}

#[test]
fn mod_counts_ids_from_one() {
    let cfg = ModConfig {
        abbr: text("cpu"),
        id: Some(2),
        meaning: Some(text("Cost Per Use")),
        description: None,
    };
    let (storage, shown) = run_mod(cfg, Ok(cpu_with_two())).unwrap();
    assert_eq!(shown, "Successfully modified: cpu (2)");
    let entry = storage.get("CPU");
    assert_eq!(entry.items[0].name, "Central Processing Unit");
    assert_eq!(entry.items[1].name, "Cost Per Use");
    assert_eq!(entry.items[1].description, Some(text("accounting")));
}

#[test]
fn mod_with_empty_description_clears_it() {
    let cfg = ModConfig { abbr: text("CPU"), id: Some(2), meaning: None, description: Some(text("")) };
    let (storage, _) = run_mod(cfg, Ok(cpu_with_two())).unwrap();
    let entry = storage.get("CPU");
    assert_eq!(entry.items[1].name, "Cost Per Unit");
    assert_eq!(entry.items[1].description, None);
}

#[test]
fn mod_with_description_sets_it() {
    let cfg = ModConfig {
        abbr: text("CPU"),
        id: Some(1),
        meaning: None,
        description: Some(text("the chip")),
    };
    let (storage, _) = run_mod(cfg, Ok(cpu_with_two())).unwrap();
    let entry = storage.get("CPU");
    assert_eq!(entry.items[0].description, Some(text("the chip")));
    assert_eq!(entry.items[1].description, Some(text("accounting")));
}

#[test]
fn mod_without_id_shows_one() {
    let mut storage = Storage::new();
    storage.put(text("CPU"), text("Central Processing Unit"), None).unwrap();
    let cfg = ModConfig {
        abbr: text("Cpu"),
        id: None,
        meaning: Some(text("Central Processor")),
        description: None,
    };
    let (storage, shown) = run_mod(cfg, Ok(storage)).unwrap();
    assert_eq!(shown, "Successfully modified: Cpu (1)");
    assert_eq!(storage.get("CPU").items[0].name, "Central Processor");
}

#[test]
fn mod_without_id_is_ambiguous_for_two_items() {
    let cfg = ModConfig { abbr: text("cpu"), id: None, meaning: Some(text("x")), description: None };
    assert!(matches!(run_mod(cfg, Ok(cpu_with_two())), Err(StorageError::AmbiguousItem)));
}

#[test]
fn mod_without_a_file_fails() {
    let cfg = ModConfig { abbr: text("cpu"), id: None, meaning: None, description: None };
    assert!(matches!(run_mod(cfg, Err(StorageError::NoSuchFile)), Err(StorageError::NoSuchFile)));
}

#[test]
fn del_counts_ids_from_one() {
    let cfg = DelConfig { abbr: text("cpu"), id: Some(1) };
    let (storage, shown) = run_del(cfg, Ok(cpu_with_two())).unwrap();
    assert_eq!(shown, "Successfully deleted: cpu (1)");
    assert_eq!(storage.get("CPU").to_string(), "CPU:\n 1) Cost Per Unit: accounting");
}

#[test]
fn del_of_an_id_past_the_end_fails() {
    let cfg = DelConfig { abbr: text("cpu"), id: Some(3) };
    assert!(matches!(run_del(cfg, Ok(cpu_with_two())), Err(StorageError::NoSuchItem)));
}

#[test]
fn del_without_a_file_fails() {
    let cfg = DelConfig { abbr: text("cpu"), id: None };
    assert!(matches!(run_del(cfg, Err(StorageError::NoSuchFile)), Err(StorageError::NoSuchFile)));
}

#[test]
fn run_of_a_lookup_writes_nothing_back() {
    let config = Config { mode: Mode::Get(GetConfig { abbr: text("cpu") }), file: None };
    let outcome = run(config, Ok(cpu_with_two())).unwrap();
    assert!(outcome.storage.is_none());
    assert_eq!(
        outcome.message,
        "CPU is one of the following:\n 1) Central Processing Unit\n 2) Cost Per Unit: accounting"
    );
}

#[test]
fn run_of_a_change_hands_the_storage_back() {
    let config = Config {
        mode: Mode::Put(put("gpu", "Graphics Processing Unit", None)),
        file: Some(std::path::PathBuf::from("somewhere.json")),
    };
    let outcome = run(config, Ok(cpu_with_two())).unwrap();
    assert_eq!(outcome.message, "Successfully added: GPU - Graphics Processing Unit");
    let storage = outcome.storage.unwrap();
    assert_eq!(storage.get("GPU").items.len(), 1);
    assert_eq!(storage.get("CPU").items.len(), 2);

    let config = Config { mode: Mode::Del(DelConfig { abbr: text("gpu"), id: None }), file: None };
    let outcome = run(config, Ok(storage)).unwrap();
    assert_eq!(outcome.message, "Successfully deleted: gpu (1)");
    assert!(outcome.storage.unwrap().get("GPU").items.is_empty());

    let config = Config {
        mode: Mode::Mod(ModConfig {
            abbr: text("cpu"),
            id: Some(1),
            meaning: None,
            description: Some(text("the chip")),
        }),
        file: None,
    };
    let outcome = run(config, Ok(cpu_with_two())).unwrap();
    assert_eq!(outcome.message, "Successfully modified: cpu (1)");
    assert_eq!(
        outcome.storage.unwrap().get("CPU").items[0].description,
        Some(text("the chip"))
    );
}

#[test]
fn run_hands_failures_on() {
    let config = Config { mode: Mode::Del(DelConfig { abbr: text("gpu"), id: None }), file: None };
    assert!(matches!(run(config, Ok(cpu_with_two())), Err(StorageError::NoSuchItem)));
}

#[test]
fn mod_to_the_name_of_another_item_fails() {
    let cfg = ModConfig {
        abbr: text("cpu"),
        id: Some(1),
        meaning: Some(text("Cost Per Unit")),
        description: None,
    };
    match run_mod(cfg, Ok(cpu_with_two())) {
        Err(StorageError::DuplicatePut(name)) => assert_eq!(name, "Cost Per Unit"),
        other => panic!("expected a duplicate, got {:?}", other),
    }
}
