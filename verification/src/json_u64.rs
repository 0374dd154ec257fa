//! A 64-bit unsigned integer that travels as decimal text.

use crate::data::{Data, DataView};
use crate::decimal::{decimal, lemma_parse_render, parse, parsed, render};
use vstd::prelude::*;
use vstd::std_specs::convert::FromSpecImpl;

verus! {

/// Represents a `u64` as a string of decimal digits wherever it is written
/// as text. JavaScript numbers have no 64 bits, and some JSON parsers lose
/// the low digits of large numbers; a string keeps all of them.
#[derive(Clone, Copy, Debug, Eq, PartialEq, Structural, Hash)]
pub struct JsonU64(pub u64);

impl Default for JsonU64 {
    fn default() -> (out: Self)
        ensures
            out == JsonU64(0),
    {
        JsonU64(0)
    }
}

impl From<&u64> for JsonU64 {
    fn from(src: &u64) -> (out: Self) {
        JsonU64(*src)
    }
}

impl FromSpecImpl<&u64> for JsonU64 {
    open spec fn obeys_from_spec() -> bool {
        true
    }

    open spec fn from_spec(src: &u64) -> Self {
        JsonU64(*src)
    }
}

impl From<&JsonU64> for u64 {
    fn from(src: &JsonU64) -> (out: u64) {
        src.0
    }
}

impl FromSpecImpl<&JsonU64> for u64 {
    open spec fn obeys_from_spec() -> bool {
        true
    }

    open spec fn from_spec(src: &JsonU64) -> u64 {
        src.0
    }
}

impl From<JsonU64> for u64 {
    fn from(src: JsonU64) -> (out: u64) {
        src.0
    }
}

impl FromSpecImpl<JsonU64> for u64 {
    open spec fn obeys_from_spec() -> bool {
        true
    }

    open spec fn from_spec(src: JsonU64) -> u64 {
        src.0
    }
}

impl AsRef<u64> for JsonU64 {
    fn as_ref(&self) -> (out: &u64)
        ensures
            *out == self.0,
    {
        &self.0
    }
}

impl JsonU64 {
    /// The text that stands for this number: its decimal digits.
    pub fn to_text(&self) -> (text: String)
        ensures
            text@ == decimal(self.0 as nat),
            parsed(text@) == Some(self.0),
    {
        proof {
            lemma_parse_render(self.0);
        }
        render(self.0)
    }

    /// The piece of data that stands for this number: its text.
    pub fn to_data(&self) -> (data: Data)
        ensures
            data@ == DataView::Text(decimal(self.0 as nat)),
            JsonU64::read(data@) == Some(*self),
    {
        proof {
            lemma_parse_render(self.0);
        }
        Data::Text(render(self.0))
    }

    /// The number that a piece of data stands for: that of its text, if it
    /// is a text that denotes one.
    pub open spec fn read(data: DataView) -> Option<JsonU64> {
        match data {
            DataView::Text(text) => match parsed(text) {
                Some(n) => Some(JsonU64(n)),
                None => None,
            },
            _ => None,
        }
    }

    /// Reads the number back from the piece of data that stands for it.
    /// `None` unless the piece is a text that denotes a 64-bit value.
    pub fn from_data(data: &Data) -> (out: Option<JsonU64>)
        ensures
            out == JsonU64::read(data@),
    {
        match data {
            Data::Text(text) => JsonU64::from_text(text.as_str()),
            _ => None,
        }
    }

    /// Reads the number back from its text. `None` unless the text is an
    /// optional `+` followed by digits that denote a 64-bit value.
    pub fn from_text(text: &str) -> (out: Option<JsonU64>)
        ensures
            out == match parsed(text@) {
                Some(n) => Some(JsonU64(n)),
                None => None,
            },
    {
        match parse(text) {
            Some(n) => Some(JsonU64(n)),
            None => None,
        }
    }
}

} // verus!
