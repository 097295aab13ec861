//! What a run is asked to do: which sources, and how much of each.

use vstd::prelude::*;
use vstd::string::*;
use crate::number::{_parse_positive_int, is_numeral, numeral_value, parse_count};

verus! {

/// The line count that applies where neither count is given.
pub const DEFAULT_LINES: usize = 10;

/// How much of each source is wanted. The two counts exclude each other.
#[derive(Clone, Copy, Debug, PartialEq, Eq, Structural)]
pub enum Selection {
    /// That many leading lines.
    LineCount(usize),
    /// That many leading bytes.
    ByteCount(usize),
}

/// Why a command line gives no configuration.
#[derive(Clone, Debug, PartialEq, Eq)]
pub enum ConfigError {
    /// The line count is not a positive number; holds what was given.
    LineCount(String),
    /// The byte count is not a number; holds what was given.
    ByteCount(String),
    /// A line count and a byte count were both given.
    Conflict,
}

impl ConfigError {
    /// The error in words.
    pub open spec fn text(self) -> Seq<char> {
        match self {
            ConfigError::LineCount(given) => "illegal line count -- "@ + given@,
            ConfigError::ByteCount(given) => "illegal byte count -- "@ + given@,
            ConfigError::Conflict => "a line count and a byte count cannot both be given"@,
        }
    }

    /// Writes the error in words.
    pub fn message(&self) -> (r: String)
        ensures
            r@ == self.text(),
    {
        match self {
            ConfigError::LineCount(given) => String::from_str("illegal line count -- ").concat(
                given.as_str(),
            ),
            ConfigError::ByteCount(given) => String::from_str("illegal byte count -- ").concat(
                given.as_str(),
            ),
            ConfigError::Conflict => String::from_str(
                "a line count and a byte count cannot both be given",
            ),
        }
    }
}

/// A configuration as contracts speak of it.
pub struct ConfigView {
    pub sources: Seq<Seq<char>>,
    pub selection: Selection,
}

impl ConfigView {
    /// There is a source to read, and a line count is positive.
    pub open spec fn wf(self) -> bool {
        &&& self.sources.len() > 0
        &&& self.selection matches Selection::LineCount(limit) ==> limit > 0
    }
}

/// The sources to read, in order, and the part of each that is wanted.
/// There is at least one source, and a line count is positive.
#[derive(Debug)]
pub struct Config {
    sources: Vec<String>,
    selection: Selection,
}

/// The texts that a list of strings holds.
pub open spec fn texts(v: Seq<String>) -> Seq<Seq<char>> {
    Seq::new(v.len(), |i: int| v[i]@)
}

/// The name that stands for standard input.
pub open spec fn stdin_name() -> Seq<char> {
    seq!['-']
}

/// A line count, where one is given, is a numeral for a positive number
/// that a `usize` holds.
pub open spec fn line_count_ok(lines: Option<String>) -> bool {
    lines matches Some(l) ==> is_numeral(l@) && 0 < numeral_value(l@) <= usize::MAX
}

/// A byte count, where one is given, is a numeral for a number that a
/// `usize` holds.
pub open spec fn byte_count_ok(bytes: Option<String>) -> bool {
    bytes matches Some(b) ==> is_numeral(b@) && numeral_value(b@) <= usize::MAX
}

/// The sources of a run: those given, or standard input where none is.
pub open spec fn chosen_sources(files: Seq<String>) -> Seq<Seq<char>> {
    if files.len() == 0 {
        seq![stdin_name()]
    } else {
        texts(files)
    }
}

/// The selection that two acceptable counts, not both given, ask for.
pub open spec fn chosen_selection(lines: Option<String>, bytes: Option<String>) -> Selection {
    match (lines, bytes) {
        (_, Some(b)) => Selection::ByteCount(numeral_value(b@) as usize),
        (Some(l), None) => Selection::LineCount(numeral_value(l@) as usize),
        (None, None) => Selection::LineCount(DEFAULT_LINES),
    }
}

impl View for Config {
    type V = ConfigView;

    closed spec fn view(&self) -> ConfigView {
        ConfigView { sources: texts(self.sources@), selection: self.selection }
    }
}

impl Config {
    /// What holds of every configuration.
    #[verifier::type_invariant]
    pub open spec fn inv(self) -> bool {
        self@.wf()
    }

    /// The source names, in the order in which they are read.
    pub fn sources(&self) -> (r: &Vec<String>)
        ensures
            self@.wf(),
            texts(r@) == self@.sources,
    {
        proof {
            use_type_invariant(self);
        }
        &self.sources
    }

    /// How much of each source is wanted.
    pub fn selection(&self) -> (r: Selection)
        ensures
            self@.wf(),
            r == self@.selection,
    {
        proof {
            use_type_invariant(self);
        }
        self.selection
    }
}

/// Builds the configuration from what a command line holds: the source
/// names, and the texts given for the line count and for the byte count.
/// No source means standard input, no count means `DEFAULT_LINES` lines.
/// A bad line count is reported first, then a bad byte count, then that
/// both counts are present.
pub fn get_args(files: Vec<String>, lines: Option<String>, bytes: Option<String>) -> (r: Result<
    Config,
    ConfigError,
>)
    ensures
        match r {
            Ok(c) => {
                &&& line_count_ok(lines)
                &&& byte_count_ok(bytes)
                &&& !(lines is Some && bytes is Some)
                &&& c@.wf()
                &&& c@.sources == chosen_sources(files@)
                &&& c@.selection == chosen_selection(lines, bytes)
            },
            Err(ConfigError::LineCount(t)) => !line_count_ok(lines) && t@ == lines->0@,
            Err(ConfigError::ByteCount(t)) => {
                &&& line_count_ok(lines)
                &&& !byte_count_ok(bytes)
                &&& t@ == bytes->0@
            },
            Err(ConfigError::Conflict) => {
                &&& line_count_ok(lines)
                &&& byte_count_ok(bytes)
                &&& lines is Some
                &&& bytes is Some
            },
        },
{
    let line_count: Option<usize> = match &lines {
        Some(l) => match _parse_positive_int(l.as_str()) {
            Ok(n) => Some(n),
            Err(t) => {
                return Err(ConfigError::LineCount(t));
            },
        },
        None => None,
    };
    let byte_count: Option<usize> = match &bytes {
        Some(b) => match parse_count(b.as_str()) {
            Some(n) => Some(n),
            None => {
                return Err(ConfigError::ByteCount(b.clone()));
            },
        },
        None => None,
    };
    let selection = match (line_count, byte_count) {
        (Some(_), Some(_)) => {
            return Err(ConfigError::Conflict);
        },
        (_, Some(b)) => Selection::ByteCount(b),
        (Some(l), None) => Selection::LineCount(l),
        (None, None) => Selection::LineCount(DEFAULT_LINES),
    };
    let mut sources = files;
    if sources.len() == 0 {
        proof {
            reveal_strlit("-");
        }
        sources.push(String::from_str("-"));
        assert(sources@[0]@ =~= stdin_name());
    }
    assert(texts(sources@) =~= chosen_sources(files@));
    Ok(Config { sources, selection })
}

} // verus!
