//! The decisions of a run, one at a time. An `Emitter` says what is to be
//! done next with the sources; whoever does it reports what came of it and
//! is handed the text to write.

use vstd::prelude::*;
use vstd::slice::*;
use vstd::string::*;
use crate::config::{stdin_name, Config, ConfigView, Selection};
use crate::prefix::byte_prefix;
use crate::text::{decode_lossy, decoded};

verus! {

/// What is to be done next.
#[derive(Clone, Debug, PartialEq, Eq)]
pub enum Action {
    /// Open standard input; answered by `Opened`.
    OpenStdin,
    /// Open the file of this name; answered by `Opened` or `OpenFailed`.
    OpenFile(String),
    /// Read that many bytes from the open source, fewer only where it ends
    /// before; answered by `Bytes` or `ReadFailed`.
    ReadBytes(usize),
    /// Read from the open source through the next newline, or to its end
    /// where none is left; answered by `Line` or `ReadFailed`.
    ReadLine,
    /// Nothing is left to do.
    Finish,
    /// Reading failed, for the reason held, and the run is given up.
    Abort(String),
}

/// What came of an action.
#[derive(Clone, Debug, PartialEq, Eq)]
pub enum Event {
    /// The source is open.
    Opened,
    /// The source could not be opened, for the reason held.
    OpenFailed(String),
    /// The bytes that were read.
    Bytes(Vec<u8>),
    /// The line that was read, its newline included; empty at the end of
    /// the source.
    Line(String),
    /// Reading failed, for the reason held.
    ReadFailed(String),
}

/// The text to write after a step.
#[derive(Clone, Debug, PartialEq, Eq)]
pub struct Output {
    /// For standard output.
    pub stdout: String,
    /// For standard error.
    pub stderr: String,
}

/// Where a run stands with the source at hand.
pub enum Stage {
    /// It is to be opened.
    Opening,
    /// It is open, and that many leading bytes are to be read from it.
    ReadingBytes(nat),
    /// It is open, and that many lines may still be read from it.
    ReadingLines(nat),
    /// Every source has been dealt with.
    Finished,
    /// Reading failed, for the reason held.
    Failed(Seq<char>),
}

/// The line that announces a source where there are several: the name
/// between arrows, after an empty line unless the source is the first.
pub open spec fn header(index: nat, total: nat, name: Seq<char>) -> Seq<char> {
    if total <= 1 {
        Seq::empty()
    } else if index == 0 {
        seq!['=', '=', '>', ' '] + name + seq![' ', '<', '=', '=', '\n']
    } else {
        seq!['\n', '=', '=', '>', ' '] + name + seq![' ', '<', '=', '=', '\n']
    }
}

/// The line that reports a source that could not be opened.
pub open spec fn diagnostic(name: Seq<char>, reason: Seq<char>) -> Seq<char> {
    name + seq![':', ' '] + reason + seq!['\n']
}

/// An emitter as contracts speak of it.
pub struct EmitterView {
    pub sources: Seq<Seq<char>>,
    pub selection: Selection,
    pub index: nat,
    pub stage: Stage,
}

impl EmitterView {
    /// The configuration is well formed, and the stage fits the index and
    /// the selection.
    pub open spec fn wf(self) -> bool {
        &&& (ConfigView { sources: self.sources, selection: self.selection }).wf()
        &&& match self.stage {
            Stage::Opening => self.index < self.sources.len(),
            Stage::ReadingBytes(count) => {
                &&& self.index < self.sources.len()
                &&& self.selection matches Selection::ByteCount(limit)
                &&& count == limit
            },
            Stage::ReadingLines(left) => {
                &&& self.index < self.sources.len()
                &&& self.selection matches Selection::LineCount(limit)
                &&& 1 <= left <= limit
            },
            Stage::Finished => self.index == self.sources.len(),
            Stage::Failed(_) => self.index < self.sources.len(),
        }
    }

    /// The state in which a run starts: the first source is to be opened.
    pub open spec fn start(config: ConfigView) -> EmitterView {
        EmitterView {
            sources: config.sources,
            selection: config.selection,
            index: 0,
            stage: Stage::Opening,
        }
    }

    /// The name of the source at hand.
    pub open spec fn name(self) -> Seq<char> {
        self.sources[self.index as int]
    }

    /// The state once the source at hand is done with: the next source is
    /// to be opened, or the run is finished.
    pub open spec fn past_source(self) -> EmitterView {
        if self.index + 1 < self.sources.len() {
            EmitterView { index: self.index + 1, stage: Stage::Opening, ..self }
        } else {
            EmitterView { index: self.sources.len(), stage: Stage::Finished, ..self }
        }
    }

    /// The action that this state asks for.
    pub open spec fn asks(self, action: Action) -> bool {
        match self.stage {
            Stage::Opening => if self.name() == stdin_name() {
                action is OpenStdin
            } else {
                action matches Action::OpenFile(path) && path@ == self.name()
            },
            Stage::ReadingBytes(count) => action == Action::ReadBytes(count as usize),
            Stage::ReadingLines(_) => action is ReadLine,
            Stage::Finished => action is Finish,
            Stage::Failed(reason) => action matches Action::Abort(text) && text@ == reason,
        }
    }

    /// The state after an event. An event that does not answer the action
    /// asked for changes nothing.
    pub open spec fn next(self, event: Event) -> EmitterView {
        match (self.stage, event) {
            (Stage::Opening, Event::OpenFailed(_)) => self.past_source(),
            (Stage::Opening, Event::Opened) => match self.selection {
                Selection::ByteCount(count) => EmitterView {
                    stage: Stage::ReadingBytes(count as nat),
                    ..self
                },
                Selection::LineCount(limit) => EmitterView {
                    stage: Stage::ReadingLines(limit as nat),
                    ..self
                },
            },
            (Stage::ReadingBytes(_), Event::Bytes(_)) => self.past_source(),
            (Stage::ReadingLines(left), Event::Line(line)) => if line@.len() == 0 || left <= 1 {
                self.past_source()
            } else {
                EmitterView { stage: Stage::ReadingLines((left - 1) as nat), ..self }
            },
            (Stage::ReadingBytes(_), Event::ReadFailed(reason)) => EmitterView {
                stage: Stage::Failed(reason@),
                ..self
            },
            (Stage::ReadingLines(_), Event::ReadFailed(reason)) => EmitterView {
                stage: Stage::Failed(reason@),
                ..self
            },
            _ => self,
        }
    }

    /// What an event sends to standard output: the header once a source is
    /// open, then what was read of it, bytes cut to the count and decoded.
    pub open spec fn stdout(self, event: Event) -> Seq<char> {
        match (self.stage, event) {
            (Stage::Opening, Event::Opened) => header(
                self.index,
                self.sources.len(),
                self.name(),
            ),
            (Stage::ReadingBytes(count), Event::Bytes(data)) => decoded(byte_prefix(data@, count)),
            (Stage::ReadingLines(_), Event::Line(line)) => line@,
            _ => Seq::empty(),
        }
    }

    /// What an event sends to standard error: a line for a source that
    /// could not be opened.
    pub open spec fn stderr(self, event: Event) -> Seq<char> {
        match (self.stage, event) {
            (Stage::Opening, Event::OpenFailed(reason)) => diagnostic(self.name(), reason@),
            _ => Seq::empty(),
        }
    }
}

/// Writes the header of the source with this index among `total` sources.
pub fn format_header(index: usize, total: usize, name: &str) -> (r: String)
    ensures
        r@ == header(index as nat, total as nat, name@),
{
    let mut r = String::new();
    if total > 1 {
        proof {
            reveal_strlit("\n");
            reveal_strlit("==> ");
            reveal_strlit(" <==\n");
        }
        if index > 0 {
            r.append("\n");
        }
        r.append("==> ");
        r.append(name);
        r.append(" <==\n");
        assert(r@ =~= header(index as nat, total as nat, name@));
    }
    r
}

/// Writes the line that reports a source that could not be opened.
pub fn format_diagnostic(name: &str, reason: &str) -> (r: String)
    ensures
        r@ == diagnostic(name@, reason@),
{
    proof {
        reveal_strlit(": ");
        reveal_strlit("\n");
    }
    let mut r = String::from_str(name);
    r.append(": ");
    r.append(reason);
    r.append("\n");
    assert(r@ =~= diagnostic(name@, reason@));
    r
}

/// Whether a source name stands for standard input.
pub fn is_stdin(name: &str) -> (r: bool)
    ensures
        r == (name@ == stdin_name()),
{
    if !name.is_ascii() {
        return false;
    }
    proof {
        is_ascii_spec_bytes(name);
    }
    let bytes = name.as_bytes();
    let r = bytes.len() == 1 && bytes[0] == 45u8;
    assert(r ==> name@ =~= stdin_name());
    r
}

enum Phase {
    Opening,
    ReadingBytes(usize),
    ReadingLines(usize),
    Finished,
    Failed(String),
}

/// The state of a run: the configuration, the source at hand and what is
/// being done with it.
pub struct Emitter {
    config: Config,
    index: usize,
    phase: Phase,
}

impl View for Emitter {
    type V = EmitterView;

    closed spec fn view(&self) -> EmitterView {
        EmitterView {
            sources: self.config@.sources,
            selection: self.config@.selection,
            index: self.index as nat,
            stage: match self.phase {
                Phase::Opening => Stage::Opening,
                Phase::ReadingBytes(count) => Stage::ReadingBytes(count as nat),
                Phase::ReadingLines(left) => Stage::ReadingLines(left as nat),
                Phase::Finished => Stage::Finished,
                Phase::Failed(reason) => Stage::Failed(reason@),
            },
        }
    }
}

impl Emitter {
    /// What holds of every emitter.
    #[verifier::type_invariant]
    pub open spec fn inv(self) -> bool {
        self@.wf()
    }

    /// The state once the source with this index is done with.
    fn past(config: Config, index: usize) -> (r: Emitter)
        requires
            index < config@.sources.len(),
        ensures
            r@ == (EmitterView {
                sources: config@.sources,
                selection: config@.selection,
                index: index as nat,
                stage: Stage::Opening,
            }).past_source(),
    {
        let total = config.sources().len();
        if index + 1 < total {
            Emitter { config, index: index + 1, phase: Phase::Opening }
        } else {
            Emitter { config, index: total, phase: Phase::Finished }
        }
    }

    /// The start of a run: the first source is to be opened.
    pub fn new(config: Config) -> (r: Emitter)
        ensures
            r@.wf(),
            r@ == EmitterView::start(config@),
    {
        proof {
            use_type_invariant(&config);
        }
        Emitter { config, index: 0, phase: Phase::Opening }
    }

    /// The place of the source at hand among the sources; their number
    /// once the run is finished.
    pub fn index(&self) -> (r: usize)
        ensures
            r == self@.index,
    {
        self.index
    }

    /// What is to be done next.
    pub fn action(&self) -> (r: Action)
        ensures
            self@.wf(),
            self@.asks(r),
    {
        proof {
            use_type_invariant(self);
        }
        match &self.phase {
            Phase::Opening => {
                let name = &self.config.sources()[self.index];
                if is_stdin(name.as_str()) {
                    Action::OpenStdin
                } else {
                    Action::OpenFile(name.clone())
                }
            },
            Phase::ReadingBytes(count) => Action::ReadBytes(*count),
            Phase::ReadingLines(_) => Action::ReadLine,
            Phase::Finished => Action::Finish,
            Phase::Failed(reason) => Action::Abort(reason.clone()),
        }
    }

    /// Takes in what came of the action asked for, and hands out the text
    /// to write and the state from which the run goes on.
    pub fn step(self, event: Event) -> (r: (Emitter, Output))
        ensures
            r.0@.wf(),
            r.0@ == self@.next(event),
            r.1.stdout@ == self@.stdout(event),
            r.1.stderr@ == self@.stderr(event),
    {
        proof {
            use_type_invariant(&self);
        }
        let Emitter { config, index, phase } = self;
        let mut stdout = String::new();
        let mut stderr = String::new();
        let next = match (phase, event) {
            (Phase::Opening, Event::OpenFailed(reason)) => {
                stderr = format_diagnostic(config.sources()[index].as_str(), reason.as_str());
                Emitter::past(config, index)
            },
            (Phase::Opening, Event::Opened) => {
                let total = config.sources().len();
                stdout = format_header(index, total, config.sources()[index].as_str());
                match config.selection() {
                    Selection::ByteCount(count) => Emitter {
                        config,
                        index,
                        phase: Phase::ReadingBytes(count),
                    },
                    Selection::LineCount(limit) => Emitter {
                        config,
                        index,
                        phase: Phase::ReadingLines(limit),
                    },
                }
            },
            (Phase::ReadingBytes(count), Event::Bytes(data)) => {
                let kept: usize = if count < data.len() {
                    count
                } else {
                    data.len()
                };
                let part = slice_subrange(data.as_slice(), 0, kept);
                assert(part@ =~= byte_prefix(data@, count as nat));
                stdout = decode_lossy(part);
                Emitter::past(config, index)
            },
            (Phase::ReadingLines(left), Event::Line(line)) => {
                let at_end = line.as_str().is_empty();
                stdout = line;
                if at_end || left <= 1 {
                    Emitter::past(config, index)
                } else {
                    Emitter { config, index, phase: Phase::ReadingLines(left - 1) }
                }
            },
            (Phase::ReadingBytes(_), Event::ReadFailed(reason)) => Emitter {
                config,
                index,
                phase: Phase::Failed(reason),
            },
            (Phase::ReadingLines(_), Event::ReadFailed(reason)) => Emitter {
                config,
                index,
                phase: Phase::Failed(reason),
            },
            (phase, _) => Emitter { config, index, phase },
        };
        (next, Output { stdout, stderr })
    }
}

} // verus!
