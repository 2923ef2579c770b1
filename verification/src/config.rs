//! What to do with a file, and where its result goes.
//!
//! Reading the input and writing the result are the caller's business; this
//! module decides. A path is carried through as it is and never looked into.

use std::path::PathBuf;
use vstd::prelude::*;
use crate::decode::{DecodeError, DecodeFailure};
use crate::encode::EncodeError;
use crate::lines::{decode_lines, decode_lines_text, encode_lines, encode_lines_text, line_texts};

verus! {

/// `std::path::PathBuf`, declared so that it can stand in fields and
/// signatures. Nothing is claimed of what a path holds.
#[verifier::external_type_specification]
#[verifier::external_body]
pub struct ExPathBuf(PathBuf);

/// What to process and where the result should go.
#[derive(Debug)]
pub struct Config {
    /// The file to read.
    pub in_file_path: PathBuf,
    /// The file to write, if one was named.
    pub out_file_path: Option<PathBuf>,
    /// Whether the result goes to standard output and no file is written.
    pub tostd: bool,
}

/// Where a result goes.
#[derive(Debug, PartialEq, Eq)]
pub enum Destination {
    /// To standard output.
    Stdout,
    /// To the file at `path`.
    File { path: PathBuf },
    /// To the file named after `input`: its extension taken off and
    /// `suffix` put in its place.
    Derived { input: PathBuf, suffix: String },
}

/// A [`Destination`] with its suffix as a sequence of characters: what the
/// contracts speak of.
pub enum DestinationView {
    /// Standard output.
    Stdout,
    /// The file at `path`.
    File { path: PathBuf },
    /// The file named after `input`, with `suffix` for its extension.
    Derived { input: PathBuf, suffix: Seq<char> },
}

impl View for Destination {
    type V = DestinationView;

    open spec fn view(&self) -> DestinationView {
        match *self {
            Destination::Stdout => DestinationView::Stdout,
            Destination::File { path } => DestinationView::File { path },
            Destination::Derived { input, suffix } => DestinationView::Derived {
                input,
                suffix: suffix@,
            },
        }
    }
}

/// The text of a processed file and where it goes.
#[derive(Debug)]
pub struct Output {
    /// The decoded or encoded lines, each with its terminator.
    pub text: String,
    /// Where `text` is to be written.
    pub destination: Destination,
}

/// The suffix of a derived file name: an underscore, the word for what was
/// done, and `.txt`.
pub open spec fn suffix_of(action: Seq<char>) -> Seq<char> {
    "_"@ + action + ".txt"@
}

/// Where the result goes under `config`: to standard output if that was
/// asked for; else to the output file if one was named; else to a file
/// named after the input and the action.
pub open spec fn destination_of(config: Config, action: Seq<char>) -> DestinationView {
    if config.tostd {
        DestinationView::Stdout
    } else {
        match config.out_file_path {
            Some(path) => DestinationView::File { path },
            None => DestinationView::Derived {
                input: config.in_file_path,
                suffix: suffix_of(action),
            },
        }
    }
}

/// The suffix of a derived file name for the action `action_str`.
pub fn output_suffix(action_str: &str) -> (suffix: String)
    ensures
        suffix@ == suffix_of(action_str@),
{
    let mut suffix = String::from_str("_");
    suffix.append(action_str);
    suffix.append(".txt");
    suffix
}

/// Decides where the result of `action_str` goes under `config`.
pub fn destination(config: Config, action_str: &str) -> (r: Destination)
    ensures
        r@ == destination_of(config, action_str@),
{
    if config.tostd {
        Destination::Stdout
    } else {
        match config.out_file_path {
            Some(path) => Destination::File { path },
            None => Destination::Derived {
                input: config.in_file_path,
                suffix: output_suffix(action_str),
            },
        }
    }
}

/// Decodes the lines of the input file, ends each with a carriage return
/// and a line feed, and says where the result goes: for a derived file name
/// the action is `decoded`. Fails as the first line does that cannot be
/// decoded.
pub fn decode(config: Config, lines: &Vec<String>) -> (r: Result<Output, DecodeError>)
    ensures
        match r {
            Ok(output) => {
                &&& decode_lines_text(line_texts(lines@), "\r\n"@) == Ok::<
                    Seq<char>,
                    DecodeFailure,
                >(output.text@)
                &&& output.destination@ == destination_of(config, "decoded"@)
            },
            Err(e) => decode_lines_text(line_texts(lines@), "\r\n"@) == Err::<
                Seq<char>,
                DecodeFailure,
            >(e@),
        },
{
    match decode_lines(lines, "\r\n") {
        Ok(text) => Ok(Output { text, destination: destination(config, "decoded") }),
        Err(e) => Err(e),
    }
}

/// Encodes the lines of the input file, ends each with a carriage return
/// and a line feed, and says where the result goes: for a derived file name
/// the action is `encoded`. Never fails.
pub fn encode(config: Config, lines: &Vec<String>) -> (r: Result<Output, EncodeError>)
    ensures
        r matches Ok(output) && output.text@ == encode_lines_text(line_texts(lines@), "\r\n"@)
            && output.destination@ == destination_of(config, "encoded"@),
{
    match encode_lines(lines, "\r\n") {
        Ok(text) => Ok(Output { text, destination: destination(config, "encoded") }),
        Err(e) => Err(e),
    }
}

} // verus!
