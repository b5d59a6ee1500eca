//! The choice of a dialect: by the version asked for when a grid is written,
//! by the first byte and the version marker when input is read.

use crate::codec::{decoding, encoding, DecodeError, BINARY_VERSION};
use crate::grid::{GridModel, IMF};
use crate::text::{is_textual, marked_text, plain_text, text_grid, ParseError};
use vstd::prelude::*;

verus! {

/// Why a grid was not written.
#[derive(Clone, Copy, Debug, PartialEq, Eq, Structural)]
pub enum EncodeError {
    /// No encoder exists for the version asked for.
    UnsupportedVersion,
    /// The dialect asked for cannot hold the grid: a text holds one layer of
    /// `width * height` cells.
    NotTextual,
}

/// Why some input is no grid, by the kind of input that it was taken for.
#[derive(Clone, Copy, Debug, PartialEq, Eq, Structural)]
pub enum LoadError {
    /// The input was taken for a byte stream in the binary dialect.
    Binary(DecodeError),
    /// The input was taken for a text.
    Text(ParseError),
}

/// The grid that some input stands for: input that starts with the version
/// byte of the binary dialect is a byte stream, any other input is text.
pub open spec fn loaded(s: Seq<u8>) -> Result<GridModel, LoadError> {
    if s.len() > 0 && s[0] == BINARY_VERSION {
        match decoding(s) {
            Ok(g) => Ok(g),
            Err(e) => Err(LoadError::Binary(e)),
        }
    } else {
        match text_grid(s) {
            Ok(g) => Ok(g),
            Err(e) => Err(LoadError::Text(e)),
        }
    }
}

/// The version that selects the plain text dialect.
pub const PLAIN_VERSION: u8 = 1;

/// The version that selects the marked text dialect.
pub const MARKED_VERSION: u8 = 2;

/// What writing a grid in the dialect of a version gives.
pub open spec fn encoded(g: GridModel, version: u8) -> Result<Seq<u8>, EncodeError> {
    if version == BINARY_VERSION {
        Ok(encoding(g))
    } else if version == PLAIN_VERSION || version == MARKED_VERSION {
        if !is_textual(g) {
            Err(EncodeError::NotTextual)
        } else if version == PLAIN_VERSION {
            Ok(plain_text(g))
        } else {
            Ok(marked_text(g))
        }
    } else {
        Err(EncodeError::UnsupportedVersion)
    }
}

impl IMF {
    /// The grid in the dialect of the version asked for: 1 and 2 are the
    /// text dialects, 3 is the binary one. Any other version is an error,
    /// and so is a text version for a grid that is not one full layer;
    /// nothing is produced then.
    pub fn encode(&self, version: u8) -> (r: Result<Vec<u8>, EncodeError>)
        ensures
            match encoded(self@, version) {
                Ok(bytes) => r matches Ok(v) && v@ == bytes,
                Err(e) => r matches Err(f) && f == e,
            },
    {
        if version == BINARY_VERSION {
            Ok(self.ser_v3())
        } else if version == PLAIN_VERSION {
            match self.to_text_v1() {
                Some(text) => Ok(text),
                None => Err(EncodeError::NotTextual),
            }
        } else if version == MARKED_VERSION {
            match self.to_text_v2() {
                Some(text) => Ok(text),
                None => Err(EncodeError::NotTextual),
            }
        } else {
            Err(EncodeError::UnsupportedVersion)
        }
    }

    /// Reads a grid from input in any dialect: a byte stream where the
    /// input starts with the version byte of the binary dialect, else a text
    /// in the dialect that its marker selects.
    pub fn load(bytes: &[u8]) -> (r: Result<IMF, LoadError>)
        ensures
            match loaded(bytes@) {
                Ok(g) => r matches Ok(imf) && imf@ == g && imf.wf(),
                Err(e) => r matches Err(f) && f == e,
            },
    {
        if bytes.len() > 0 && bytes[0] == BINARY_VERSION {
            match IMF::decode(bytes) {
                Ok(imf) => Ok(imf),
                Err(e) => Err(LoadError::Binary(e)),
            }
        } else {
            match IMF::parse_text(bytes) {
                Ok(imf) => Ok(imf),
                Err(e) => Err(LoadError::Text(e)),
            }
        }
    }
}

impl LoadError {
    /// The error in words: those of the error inside.
    pub open spec fn message_text(self) -> Seq<char> {
        match self {
            LoadError::Binary(e) => e.message_text(),
            LoadError::Text(e) => e.message_text(),
        }
    }

    /// The error in words: those of the error inside.
    pub fn message(&self) -> (r: String)
        ensures
            r@ == self.message_text(),
    {
        match self {
            LoadError::Binary(e) => e.message(),
            LoadError::Text(e) => e.message(),
        }
    }
}

impl EncodeError {
    /// The error in words.
    pub open spec fn message_text(self) -> Seq<char> {
        match self {
            EncodeError::UnsupportedVersion => "Version: no such dialect"@,
            EncodeError::NotTextual => "Map: not one full layer"@,
        }
    }

    /// The error in words.
    pub fn message(&self) -> (r: String)
        ensures
            r@ == self.message_text(),
    {
        match self {
            EncodeError::UnsupportedVersion => "Version: no such dialect".to_owned(),
            EncodeError::NotTextual => "Map: not one full layer".to_owned(),
        }
    }
}

} // verus!
