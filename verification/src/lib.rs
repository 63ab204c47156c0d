//! A personal dictionary of abbreviations: short forms with the meanings
//! recorded for them.
//!
//! The storage and its operations are in [`storage`]; what they do is stated
//! over the model in [`model`]. The functions here carry out one command on
//! a storage that the caller has loaded, and say what to print and what to
//! write back.

use vstd::prelude::*;
use vstd::string::*;

pub mod config;
pub mod decimal;
pub mod entry;
pub mod error;
pub mod layout;
pub mod model;
pub mod storage;
pub mod text;
pub mod theorems;

use crate::config::{Config, DelConfig, GetConfig, ModConfig, Mode, PutConfig};
use crate::decimal::{decimal, to_decimal};
use crate::entry::text_view;
use crate::model::{
    delete_spec, lookup, modify_spec, put_spec, render_entry, Dictionary, ErrorView, ItemView,
    ModificationView,
};
use crate::storage::{Storage, StorageError, StorageModification};
use crate::text::{to_uppercase, uppercase};

verus! {

/// What a command has to show for itself: the line to print, and the storage
/// to write back where the command changed it.
#[derive(Debug)]
pub struct Outcome {
    pub message: String,
    pub storage: Option<Storage>,
}

/// What came of loading the storage, as the model sees it.
pub open spec fn loaded_view(loaded: Result<Storage, StorageError>) -> Result<
    Dictionary,
    ErrorView,
> {
    match loaded {
        Ok(storage) => Ok(storage@),
        Err(e) => Err(e@),
    }
}

/// The position that an id stands for, which the user counts from 1.
pub open spec fn position_of(id: Option<usize>) -> Option<usize> {
    match id {
        Some(n) => Some((n - 1) as usize),
        None => None,
    }
}

/// The number that names the item in a report: the id, or 1 without one.
pub open spec fn shown_id(id: Option<usize>) -> nat {
    match id {
        Some(n) => n as nat,
        None => 1,
    }
}

/// The answer to a lookup: the entry of the upper-cased abbreviation as
/// text, or a hint where no storage file exists yet.
pub open spec fn get_report(cfg: GetConfig, loaded: Result<Dictionary, ErrorView>) -> Result<
    Seq<char>,
    ErrorView,
> {
    match loaded {
        Ok(d) => Ok(render_entry(lookup(d, uppercase(cfg.abbr@)))),
        Err(ErrorView::NoSuchFile) => Ok(
            "You have yet to store any abbreviations, do so with `abbr put`"@,
        ),
        Err(e) => Err(e),
    }
}

/// The result of adding a meaning under the upper-cased abbreviation, to the
/// loaded storage or to an empty one where no storage file exists yet.
pub open spec fn put_report(cfg: PutConfig, loaded: Result<Dictionary, ErrorView>) -> Result<
    (Dictionary, Seq<char>),
    ErrorView,
> {
    let start = match loaded {
        Ok(d) => Ok(d),
        Err(ErrorView::NoSuchFile) => Ok(Map::empty()),
        Err(e) => Err(e),
    };
    let key = uppercase(cfg.abbr@);
    match start {
        Err(e) => Err(e),
        Ok(d) => match put_spec(
            d,
            key,
            ItemView { name: cfg.full@, description: text_view(cfg.description) },
        ) {
            Err(e) => Err(e),
            Ok(after) => Ok((after, "Successfully added: "@ + key + " - "@ + cfg.full@)),
        },
    }
}

/// The change that a command line asks for. An empty description asks for
/// the description to be cleared.
pub open spec fn requested_change(cfg: ModConfig) -> ModificationView {
    ModificationView {
        acronym: uppercase(cfg.abbr@),
        id: position_of(cfg.id),
        new_name: text_view(cfg.meaning),
        new_description: match cfg.description {
            None => None,
            Some(d) => if d@.len() == 0 {
                Some(None)
            } else {
                Some(Some(d@))
            },
        },
    }
}

/// The result of changing an item of the loaded storage.
pub open spec fn mod_report(cfg: ModConfig, loaded: Result<Dictionary, ErrorView>) -> Result<
    (Dictionary, Seq<char>),
    ErrorView,
> {
    match loaded {
        Err(e) => Err(e),
        Ok(d) => match modify_spec(d, requested_change(cfg)) {
            Err(e) => Err(e),
            Ok(after) => Ok(
                (
                    after,
                    "Successfully modified: "@ + cfg.abbr@ + " ("@ + decimal(shown_id(cfg.id))
                        + ")"@,
                ),
            ),
        },
    }
}

/// The result of removing an item from the loaded storage.
pub open spec fn del_report(cfg: DelConfig, loaded: Result<Dictionary, ErrorView>) -> Result<
    (Dictionary, Seq<char>),
    ErrorView,
> {
    match loaded {
        Err(e) => Err(e),
        Ok(d) => match delete_spec(d, uppercase(cfg.abbr@), position_of(cfg.id)) {
            Err(e) => Err(e),
            Ok(after) => Ok(
                (
                    after,
                    "Successfully deleted: "@ + cfg.abbr@ + " ("@ + decimal(shown_id(cfg.id))
                        + ")"@,
                ),
            ),
        },
    }
}

/// Whether a command's result is what the model says it is.
pub open spec fn change_matches(
    r: Result<(Storage, String), StorageError>,
    report: Result<(Dictionary, Seq<char>), ErrorView>,
) -> bool {
    match report {
        Ok((d, text)) => r is Ok && r->Ok_0.0@ == d && r->Ok_0.1@ == text,
        Err(e) => r is Err && r->Err_0@ == e,
    }
}

/// Looks an abbreviation up in the loaded storage and gives the text to
/// print. Without a storage file there is nothing to look up, which is no
/// error; any other failure to load is handed on.
pub fn run_get(cfg: GetConfig, loaded: Result<Storage, StorageError>) -> (r: Result<
    String,
    StorageError,
>)
    ensures
        match get_report(cfg, loaded_view(loaded)) {
            Ok(text) => r is Ok && r->Ok_0@ == text,
            Err(e) => r is Err && r->Err_0@ == e,
        },
{
    let storage = match loaded {
        Ok(storage) => storage,
        Err(StorageError::NoSuchFile) => {
            return Ok(
                String::from_str("You have yet to store any abbreviations, do so with `abbr put`"),
            );
        },
        Err(e) => {
            return Err(e);
        },
    };
    let abbr = to_uppercase(cfg.abbr.as_str());
    Ok(storage.get(abbr.as_str()).to_string())
}

/// Adds a meaning to the loaded storage, or to a new one where no storage
/// file exists yet, and gives the storage to write back with the text to
/// print.
pub fn run_put(cfg: PutConfig, loaded: Result<Storage, StorageError>) -> (r: Result<
    (Storage, String),
    StorageError,
>)
    ensures
        change_matches(r, put_report(cfg, loaded_view(loaded))),
{
    let mut storage = match loaded {
        Ok(storage) => storage,
        Err(StorageError::NoSuchFile) => Storage::new(),
        Err(e) => {
            return Err(e);
        },
    };
    let PutConfig { abbr, full, description } = cfg;
    let abbr = to_uppercase(abbr.as_str());
    let mut text = String::from_str("Successfully added: ");
    text.append(abbr.as_str());
    text.append(" - ");
    text.append(full.as_str());
    match storage.put(abbr, full, description) {
        Ok(_) => Ok((storage, text)),
        Err(e) => Err(e),
    }
}

/// The text that reports a change of the item `id` of `abbr`.
fn change_text(verb: &str, abbr: &String, id: Option<usize>) -> (text: String)
    ensures
        text@ == verb@ + abbr@ + " ("@ + decimal(shown_id(id)) + ")"@,
{
    let shown = match id {
        Some(n) => n,
        None => 1,
    };
    let mut text = String::from_str(verb);
    text.append(abbr.as_str());
    text.append(" (");
    text.append(to_decimal(shown).as_str());
    text.append(")");
    text
}

/// Changes an item of the loaded storage and gives the storage to write
/// back with the text to print. An id counts from 1.
pub fn run_mod(cfg: ModConfig, loaded: Result<Storage, StorageError>) -> (r: Result<
    (Storage, String),
    StorageError,
>)
    requires
        cfg.id matches Some(n) ==> n >= 1,
    ensures
        change_matches(r, mod_report(cfg, loaded_view(loaded))),
{
    let mut storage = match loaded {
        Ok(storage) => storage,
        Err(e) => {
            return Err(e);
        },
    };
    let ghost change = requested_change(cfg);
    let ModConfig { abbr, id, meaning, description } = cfg;
    let position = match id {
        Some(n) => Some(n - 1),
        None => None,
    };
    let modification = StorageModification::new(to_uppercase(abbr.as_str()), position);
    let modification = match meaning {
        Some(name) => modification.name(name),
        None => modification,
    };
    let modification = match description {
        None => modification,
        Some(d) => if d.as_str().is_empty() {
            modification.description(None)
        } else {
            modification.description(Some(d))
        },
    };
    assert(modification@ == change);
    let text = change_text("Successfully modified: ", &abbr, id);
    match storage.modify(modification) {
        Ok(_) => Ok((storage, text)),
        Err(e) => Err(e),
    }
}

/// Removes an item from the loaded storage and gives the storage to write
/// back with the text to print. An id counts from 1.
pub fn run_del(cfg: DelConfig, loaded: Result<Storage, StorageError>) -> (r: Result<
    (Storage, String),
    StorageError,
>)
    requires
        cfg.id matches Some(n) ==> n >= 1,
    ensures
        change_matches(r, del_report(cfg, loaded_view(loaded))),
{
    let mut storage = match loaded {
        Ok(storage) => storage,
        Err(e) => {
            return Err(e);
        },
    };
    let DelConfig { abbr, id } = cfg;
    let position = match id {
        Some(n) => Some(n - 1),
        None => None,
    };
    let key = to_uppercase(abbr.as_str());
    let text = change_text("Successfully deleted: ", &abbr, id);
    match storage.delete(key.as_str(), position) {
        Ok(_) => Ok((storage, text)),
        Err(e) => Err(e),
    }
}

/// Whether the ids that `mode` carries count from 1.
pub open spec fn ids_from_one(mode: Mode) -> bool {
    match mode {
        Mode::Mod(cfg) => cfg.id matches Some(n) ==> n >= 1,
        Mode::Del(cfg) => cfg.id matches Some(n) ==> n >= 1,
        _ => true,
    }
}

/// Carries out the command that `config` holds on the loaded storage. The
/// outcome has the line to print, and the storage to write back unless the
/// command was a lookup.
pub fn run(config: Config, loaded: Result<Storage, StorageError>) -> (r: Result<
    Outcome,
    StorageError,
>)
    requires
        ids_from_one(config.mode),
    ensures
        match config.mode {
            Mode::Get(cfg) => match get_report(cfg, loaded_view(loaded)) {
                Ok(text) => r is Ok && r->Ok_0.message@ == text && r->Ok_0.storage is None,
                Err(e) => r is Err && r->Err_0@ == e,
            },
            Mode::Put(cfg) => outcome_matches(r, put_report(cfg, loaded_view(loaded))),
            Mode::Mod(cfg) => outcome_matches(r, mod_report(cfg, loaded_view(loaded))),
            Mode::Del(cfg) => outcome_matches(r, del_report(cfg, loaded_view(loaded))),
        },
{
    let changed = match config.mode {
        Mode::Get(cfg) => {
            return match run_get(cfg, loaded) {
                Ok(message) => Ok(Outcome { message, storage: None }),
                Err(e) => Err(e),
            };
        },
        Mode::Put(cfg) => run_put(cfg, loaded),
        Mode::Mod(cfg) => run_mod(cfg, loaded),
        Mode::Del(cfg) => run_del(cfg, loaded),
    };
    match changed {
        Ok((storage, message)) => Ok(Outcome { message, storage: Some(storage) }),
        Err(e) => Err(e),
    }
}

/// Whether the outcome of a changing command is what the model says it is.
pub open spec fn outcome_matches(
    r: Result<Outcome, StorageError>,
    report: Result<(Dictionary, Seq<char>), ErrorView>,
) -> bool {
    match report {
        Ok((d, text)) => {
            &&& r is Ok
            &&& r->Ok_0.message@ == text
            &&& r->Ok_0.storage is Some
            &&& r->Ok_0.storage->Some_0@ == d
        },
        Err(e) => r is Err && r->Err_0@ == e,
    }
}

} // verus!
