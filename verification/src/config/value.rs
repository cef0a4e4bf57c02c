//! The values of a configuration file, and the readers of its simple fields.

use crate::text;
use vstd::prelude::*;
use vstd::string::*;

verus! {

/// A value of a configuration file. The entries of a table stand in the file's order.
#[derive(Debug, PartialEq, Eq)]
pub enum ConfigValue {
    Text(String),
    Integer(i64),
    Boolean(bool),
    List(Vec<ConfigValue>),
    Table(Vec<(String, ConfigValue)>),
    /// A number with a fraction, or a date.
    Other,
}

/// The entry of a table that counts for a key: the last one.
pub open spec fn last_value(entries: Seq<(String, ConfigValue)>, key: Seq<char>) -> Option<
    ConfigValue,
>
    decreases entries.len(),
{
    if entries.len() == 0 {
        None
    } else if entries.last().0@ == key {
        Some(entries.last().1)
    } else {
        last_value(entries.drop_last(), key)
    }
}

/// The complaint about a value of the wrong type.
pub open spec fn wrong_type(expected: Seq<char>) -> Seq<char> {
    "invalid type, expected "@ + expected
}

/// The complaint about a key that a table does not have.
pub open spec fn unknown_field(key: Seq<char>, expected: Seq<char>) -> Seq<char> {
    "unknown field `"@ + key + "`, expected one of "@ + expected
}

pub fn wrong_type_message(expected: &str) -> (message: String)
    ensures
        message@ == wrong_type(expected@),
{
    let mut message = "invalid type, expected ".to_owned();
    message.append(expected);
    message
}

pub fn unknown_field_message(key: &str, expected: &str) -> (message: String)
    ensures
        message@ == unknown_field(key@, expected@),
{
    let mut message = "unknown field `".to_owned();
    message.append(key);
    message.append("`, expected one of ");
    message.append(expected);
    assert(message@ =~= unknown_field(key@, expected@));
    message
}

/// A complaint by its words, and a success by itself.
pub open spec fn spoken<T>(result: Result<T, String>) -> Result<T, Seq<char>> {
    match result {
        Ok(value) => Ok(value),
        Err(message) => Err(message@),
    }
}

pub open spec fn spec_boolean(value: ConfigValue) -> Result<bool, Seq<char>> {
    match value {
        ConfigValue::Boolean(b) => Ok(b),
        _ => Err(wrong_type("a boolean"@)),
    }
}

pub fn read_boolean(value: &ConfigValue) -> (result: Result<bool, String>)
    ensures
        spoken(result) == spec_boolean(*value),
{
    match value {
        ConfigValue::Boolean(b) => Ok(*b),
        _ => Err(wrong_type_message("a boolean")),
    }
}

pub open spec fn spec_u16(value: ConfigValue) -> Result<u16, Seq<char>> {
    match value {
        ConfigValue::Integer(n) => if 0 <= n <= u16::MAX {
            Ok(n as u16)
        } else {
            Err(wrong_type("u16"@))
        },
        _ => Err(wrong_type("u16"@)),
    }
}

pub fn read_u16(value: &ConfigValue) -> (result: Result<u16, String>)
    ensures
        spoken(result) == spec_u16(*value),
{
    if let ConfigValue::Integer(n) = value {
        if 0 <= *n && *n <= u16::MAX as i64 {
            return Ok(*n as u16);
        }
    }
    Err(wrong_type_message("u16"))
}

pub open spec fn spec_u64(value: ConfigValue) -> Result<u64, Seq<char>> {
    match value {
        ConfigValue::Integer(n) => if 0 <= n {
            Ok(n as u64)
        } else {
            Err(wrong_type("u64"@))
        },
        _ => Err(wrong_type("u64"@)),
    }
}

pub fn read_u64(value: &ConfigValue) -> (result: Result<u64, String>)
    ensures
        spoken(result) == spec_u64(*value),
{
    if let ConfigValue::Integer(n) = value {
        if 0 <= *n {
            return Ok(*n as u64);
        }
    }
    Err(wrong_type_message("u64"))
}

pub open spec fn spec_text(value: ConfigValue) -> Result<Seq<char>, Seq<char>> {
    match value {
        ConfigValue::Text(t) => Ok(t@),
        _ => Err(wrong_type("a string"@)),
    }
}

/// The text of a value. The entries of a table are strings of their own.
pub fn read_text(value: &ConfigValue) -> (result: Result<String, String>)
    ensures
        match result {
            Ok(t) => spec_text(*value) == Ok::<Seq<char>, Seq<char>>(t@),
            Err(message) => spec_text(*value) == Err::<Seq<char>, Seq<char>>(message@),
        },
{
    match value {
        ConfigValue::Text(t) => Ok(text::duplicate(t.as_str())),
        _ => Err(wrong_type_message("a string")),
    }
}

} // verus!
