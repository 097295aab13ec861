//! The leading part of texts: the first lines or the first bytes of each of
//! a list of sources, with a header between them where there are several.
//!
//! The library decides and computes; it neither opens nor reads nor writes.
//!
//! - `config`: what a run is asked to do, and how a command line says it.
//! - `emit`: the decisions of a run, one at a time, for a caller that does
//!   the reading and the writing.
//! - `run`: a whole run over sources held in memory, and what holds of
//!   every run.
//! - `prefix`: the leading bytes and the leading lines of a byte sequence.
//! - `number`: decimal numerals.
//! - `text`: bytes as text.

pub mod config;
pub mod emit;
pub mod number;
pub mod prefix;
pub mod run;
pub mod text;

pub use config::{get_args, Config, ConfigError, Selection};
pub use emit::{Action, Emitter, Event, Output};
pub use number::_parse_positive_int;
pub use run::{run, Source, Transcript};
