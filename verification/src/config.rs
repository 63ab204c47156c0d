//! What the command line asks for.

use vstd::prelude::*;
use vstd::string::*;

use crate::text::{decimal_value, parse_usize};

verus! {

/// `std::path::PathBuf`, carried through as it came.
#[verifier::external_type_specification]
#[verifier::external_body]
pub struct ExPathBuf(std::path::PathBuf);

/// The operation to run, with its arguments.
#[derive(Debug)]
pub enum Mode {
    Put(PutConfig),
    Get(GetConfig),
    Mod(ModConfig),
    Del(DelConfig),
}

#[derive(Debug)]
pub struct GetConfig {
    /// The abbreviation to look up.
    pub abbr: String,
}

#[derive(Debug)]
pub struct PutConfig {
    /// The abbreviation to add.
    pub abbr: String,
    /// What it means.
    pub full: String,
    /// An optional description.
    pub description: Option<String>,
}

#[derive(Debug)]
pub struct ModConfig {
    /// The abbreviation to modify.
    pub abbr: String,
    /// Which of its items, counted from 1; may be left out if there is only one.
    pub id: Option<usize>,
    /// An optional new meaning.
    pub meaning: Option<String>,
    /// An optional new description; the empty text removes the current one.
    pub description: Option<String>,
}

#[derive(Debug)]
pub struct DelConfig {
    /// The abbreviation to delete from.
    pub abbr: String,
    /// Which of its items, counted from 1; may be left out if there is only one.
    pub id: Option<usize>,
}

#[derive(Debug)]
pub struct Config {
    pub mode: Mode,
    /// The file to use as storage for abbreviations.
    pub file: Option<std::path::PathBuf>,
}

/// Reads an id as the user writes it: a decimal number that is at least 1.
/// A number that is 0 is refused with a text of its own; whatever is no
/// number that fits is refused with the text that the parse error shows
/// itself by.
pub fn parse_id(arg: &str) -> (r: Result<usize, String>)
    ensures
        match r {
            Ok(id) => id >= 1 && decimal_value(arg@) == Some(id as nat),
            Err(text) => match decimal_value(arg@) {
                Some(value) => {
                    ||| value > usize::MAX
                    ||| value == 0 && text@ == "id needs to be greater than or equal to 1"@
                },
                None => true,
            },
        },
        r matches Err(text) ==> {
            ||| text@ == "id needs to be greater than or equal to 1"@
            ||| exists|e: core::num::ParseIntError| #[trigger]
                to_string_from_display_ensures::<core::num::ParseIntError>(&e, text)
        },
{
    let num = match parse_usize(arg) {
        Ok(num) => num,
        Err(e) => {
            return Err(e.to_string());
        },
    };
    if num < 1 {
        return Err(String::from_str("id needs to be greater than or equal to 1"));
    }
    Ok(num)
}

} // verus!
