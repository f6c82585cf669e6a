//! The front end: from source text to syntax.
//!
//! A source text is ASCII. [`parse_mod`] gives the syntax of a text and
//! [`apply`] the compilation unit that is built from it, in which no
//! reference has a link yet.
use vstd::prelude::*;
use vstd::string::is_ascii;
use vstd::utf8::is_ascii_chars;
use crate::ast;
use crate::parse::grammar::{ascii_bytes, parsed_items, Input, Parser};
use crate::parse::lexer::{lex, lexed, location_at};
use crate::semantics::{build_mod, unlinked_mod};
use crate::tree::{ItemView, LilitFile, Location};

pub mod grammar;
pub mod lexer;

verus! {

/// Why a text is not a unit.
#[derive(Debug, Clone, Copy, PartialEq, Eq, Structural)]
pub enum ParseError {
    /// The text has a character outside ASCII.
    NotAscii,
    /// The text is too long for places to be counted in it.
    TooLong,
    /// No token starts at this place.
    UnexpectedCharacter { location: Location },
    /// The token at this place should start a class or a method, and none
    /// that is complete starts there.
    UnexpectedToken { location: Location },
}

/// The unit that a text writes, or why it writes none.
pub open spec fn parsed(chars: Seq<char>) -> Result<Seq<ItemView>, ParseError> {
    if !is_ascii_chars(chars) {
        Err(ParseError::NotAscii)
    } else if chars.len() >= u32::MAX {
        Err(ParseError::TooLong)
    } else {
        match lexed(ascii_bytes(chars), 0) {
            Ok(tokens) => match parsed_items(Input { chars, tokens }, 0, Seq::empty()) {
                Ok(items) => Ok(items),
                Err(at) => Err(ParseError::UnexpectedToken { location: tokens[at].location() }),
            },
            Err(place) => Err(
                ParseError::UnexpectedCharacter { location: location_at(ascii_bytes(chars), place) },
            ),
        }
    }
}

/// Reads the syntax of a unit from its source text.
pub fn parse_mod(source: &str) -> (result: Result<ast::Mod, ParseError>)
    ensures
        match result {
            Ok(m) => parsed(source@) == Ok::<Seq<ItemView>, ParseError>(unlinked_mod(m)),
            Err(error) => parsed(source@) == Err::<Seq<ItemView>, ParseError>(error),
        },
{
    if !source.is_ascii() {
        return Err(ParseError::NotAscii);
    }
    let bytes = source.as_bytes();
    proof {
        vstd::string::is_ascii_spec_bytes(source);
        assert(bytes@ =~= ascii_bytes(source@));
    }
    if bytes.len() >= 0xffff_ffff {
        return Err(ParseError::TooLong);
    }
    match lex(bytes) {
        Ok(tokens) => {
            let parser = Parser::new(source, bytes, &tokens);
            match parser.parse_items() {
                Ok(m) => Ok(m),
                Err(at) => Err(
                    ParseError::UnexpectedToken {
                        location: Location { line: tokens[at].line, col: tokens[at].col },
                    },
                ),
            }
        },
        Err(location) => Err(ParseError::UnexpectedCharacter { location }),
    }
}

/// Reads a source file: the unit that `content` writes, with no reference
/// linked, as the file at `path`.
pub fn apply(content: &str, path: &str) -> (result: Result<LilitFile, ParseError>)
    ensures
        match result {
            Ok(file) => parsed(content@) == Ok::<Seq<ItemView>, ParseError>(file@) && file.path@
                == path@,
            Err(error) => parsed(content@) == Err::<Seq<ItemView>, ParseError>(error),
        },
{
    match parse_mod(content) {
        Ok(m) => Ok(LilitFile { path: path.to_string(), unit: build_mod(&m) }),
        Err(error) => Err(error),
    }
}

} // verus!
