//! A whole run over sources that are held in memory.

use vstd::prelude::*;
use vstd::slice::*;
use vstd::string::*;
use vstd::utf8::*;
use crate::config::{Config, Selection};
use crate::emit::{diagnostic, header, Action, Emitter, EmitterView, Event, Stage};
use crate::prefix::{
    byte_prefix, find_line_end, lemma_line_end, lemma_line_prefix_exact,
    lemma_line_prefix_whole, lemma_lines_of_text, line_count, line_end, line_prefix, lines_read,
    newlines, NEWLINE,
};
use crate::text::{decode_strict, decoded};

verus! {

/// What there is of one source.
#[derive(Clone, Debug, PartialEq, Eq)]
pub enum Source {
    /// It cannot be opened, for the reason held.
    Unopened(String),
    /// It can be opened, and these are the bytes that it yields.
    Content(Vec<u8>),
}

/// What a run wrote, and why it was given up if it was.
#[derive(Clone, Debug, PartialEq, Eq)]
pub struct Transcript {
    /// What went to standard output.
    pub stdout: String,
    /// What went to standard error.
    pub stderr: String,
    /// The reason for which reading failed, where it did.
    pub failure: Option<String>,
}

/// A transcript as contracts speak of it.
#[verifier::ext_equal]
pub struct TranscriptView {
    pub stdout: Seq<char>,
    pub stderr: Seq<char>,
    pub failure: Option<Seq<char>>,
}

impl View for Transcript {
    type V = TranscriptView;

    open spec fn view(&self) -> TranscriptView {
        TranscriptView {
            stdout: self.stdout@,
            stderr: self.stderr@,
            failure: match self.failure {
                Some(reason) => Some(reason@),
                None => None,
            },
        }
    }
}

impl TranscriptView {
    /// Nothing written, nothing failed.
    pub open spec fn empty() -> TranscriptView {
        TranscriptView { stdout: Seq::empty(), stderr: Seq::empty(), failure: None }
    }

    /// A run that stopped at a read failure.
    pub open spec fn failed(stdout: Seq<char>, reason: Seq<char>) -> TranscriptView {
        TranscriptView { stdout, stderr: Seq::empty(), failure: Some(reason) }
    }

    /// This transcript, with text written before it.
    pub open spec fn after(self, stdout: Seq<char>, stderr: Seq<char>) -> TranscriptView {
        TranscriptView {
            stdout: stdout + self.stdout,
            stderr: stderr + self.stderr,
            failure: self.failure,
        }
    }
}

impl Source {
    /// The bytes that the source yields; none where it cannot be opened.
    pub open spec fn bytes(self) -> Seq<u8> {
        match self {
            Source::Unopened(_) => Seq::empty(),
            Source::Content(data) => data@,
        }
    }

    fn content(&self) -> (r: &[u8])
        ensures
            r@ == self.bytes(),
    {
        match self {
            Source::Unopened(_) => &[],
            Source::Content(data) => data.as_slice(),
        }
    }
}

/// The reason given where a line is not valid UTF-8.
pub open spec fn invalid_text() -> Seq<char> {
    "stream did not contain valid UTF-8"@
}

/// What is written of the bytes of one source, and whether reading them
/// succeeded.
pub open spec fn content_text(data: Seq<u8>, selection: Selection) -> (Seq<char>, bool) {
    match selection {
        Selection::ByteCount(count) => (decoded(byte_prefix(data, count as nat)), true),
        Selection::LineCount(limit) => lines_read(data, 0, limit as nat),
    }
}

/// The transcript of the sources from `index` on. A source that cannot be
/// opened gets a line on standard error; one that can gets its header and
/// its leading part on standard output; a line that is not text ends the
/// run behind the lines before it.
pub open spec fn transcript_from(
    names: Seq<Seq<char>>,
    selection: Selection,
    sources: Seq<Source>,
    index: int,
) -> TranscriptView
    decreases names.len() - index,
{
    if index < 0 || index >= names.len() {
        TranscriptView::empty()
    } else {
        let rest = transcript_from(names, selection, sources, index + 1);
        match sources[index] {
            Source::Unopened(reason) => rest.after(
                Seq::empty(),
                diagnostic(names[index], reason@),
            ),
            Source::Content(data) => {
                let head = header(index as nat, names.len(), names[index]);
                let body = content_text(data@, selection);
                if body.1 {
                    rest.after(head + body.0, Seq::empty())
                } else {
                    TranscriptView::failed(head + body.0, invalid_text())
                }
            },
        }
    }
}

/// The transcript of a run over all the sources.
pub open spec fn transcript(
    names: Seq<Seq<char>>,
    selection: Selection,
    sources: Seq<Source>,
) -> TranscriptView {
    transcript_from(names, selection, sources, 0)
}

/// By bytes, what is written of a source is the text of its first `count`
/// bytes, or of all of them where it has fewer, and reading cannot fail.
/// For a count of zero nothing is written.
pub proof fn lemma_byte_mode(data: Seq<u8>, count: usize)
    ensures
        content_text(data, Selection::ByteCount(count)) == (
            decoded(data.take(vstd::math::min(count as int, data.len() as int))),
            true,
        ),
        count == 0 ==> content_text(data, Selection::ByteCount(count)).0 == Seq::<char>::empty(),
{
    assert(data.take(data.len() as int) =~= data);
    assert(data.take(0) =~= Seq::<u8>::empty());
    assert(valid_utf8(Seq::<u8>::empty()));
    assert(decode_utf8(Seq::<u8>::empty()) =~= Seq::<char>::empty());
}

/// By lines, what is written of a source that is valid UTF-8 is the text
/// of its line prefix, and reading does not fail.
pub proof fn lemma_line_mode(data: Seq<u8>, limit: usize)
    requires
        valid_utf8(data),
    ensures
        content_text(data, Selection::LineCount(limit)) == (
            decode_utf8(line_prefix(data, limit as nat)),
            true,
        ),
{
    lemma_lines_of_text(data, limit as nat);
}

/// By lines, of a text with at least `limit` lines that a newline ends
/// exactly the first `limit` lines are written, newlines included: the
/// leading part of the text that holds `limit` newlines and ends with one.
pub proof fn lemma_line_mode_exact(data: Seq<u8>, limit: usize)
    requires
        valid_utf8(data),
        newlines(data) >= limit,
    ensures
        content_text(data, Selection::LineCount(limit)) == (
            decode_utf8(line_prefix(data, limit as nat)),
            true,
        ),
        line_prefix(data, limit as nat).is_prefix_of(data),
        newlines(line_prefix(data, limit as nat)) == limit,
        limit > 0 ==> line_prefix(data, limit as nat).len() > 0 && line_prefix(
            data,
            limit as nat,
        ).last() == NEWLINE,
{
    lemma_line_mode(data, limit);
    lemma_line_prefix_exact(data, limit as nat);
}

/// By lines, a text with no more than `limit` lines is written whole and
/// unchanged.
pub proof fn lemma_line_mode_whole(data: Seq<u8>, limit: usize)
    requires
        valid_utf8(data),
        line_count(data) <= limit,
    ensures
        content_text(data, Selection::LineCount(limit)) == (decode_utf8(data), true),
{
    lemma_line_mode(data, limit);
    lemma_line_prefix_whole(data, limit as nat);
}

/// A single source gets no header: standard output holds what is written
/// of the source and nothing else, whatever the source holds.
pub proof fn lemma_single_source(
    names: Seq<Seq<char>>,
    selection: Selection,
    sources: Seq<Source>,
)
    requires
        names.len() == 1,
        sources.len() == 1,
    ensures
        transcript(names, selection, sources).stdout == (match sources[0] {
            Source::Unopened(_) => Seq::empty(),
            Source::Content(data) => content_text(data@, selection).0,
        }),
{
    let rest = transcript_from(names, selection, sources, 1);
    assert(rest == TranscriptView::empty());
    match sources[0] {
        Source::Unopened(_) => {
            assert(Seq::<char>::empty() + rest.stdout =~= Seq::<char>::empty());
        },
        Source::Content(data) => {
            let body = content_text(data@, selection);
            assert(header(0, 1, names[0]) + body.0 =~= body.0);
            assert(body.0 + rest.stdout =~= body.0);
        },
    }
}

/// Of two sources that both can be read, standard output holds the header
/// of the first with no empty line before it, what is written of the
/// first, the header of the second behind an empty line, and what is
/// written of the second. Nothing else is written, and nothing fails.
pub proof fn lemma_two_sources(names: Seq<Seq<char>>, selection: Selection, sources: Seq<Source>)
    requires
        names.len() == 2,
        sources.len() == 2,
        sources[0] is Content,
        sources[1] is Content,
        content_text(sources[0].bytes(), selection).1,
        content_text(sources[1].bytes(), selection).1,
    ensures
        ({
            let first = content_text(sources[0].bytes(), selection).0;
            let second = content_text(sources[1].bytes(), selection).0;
            let t = transcript(names, selection, sources);
            &&& t.stdout == seq!['=', '=', '>', ' '] + names[0] + seq![' ', '<', '=', '=', '\n']
                + first + seq!['\n', '=', '=', '>', ' '] + names[1] + seq![' ', '<', '=', '=', '\n']
                + second
            &&& t.stderr == Seq::<char>::empty()
            &&& t.failure is None
        }),
{
    let first = content_text(sources[0].bytes(), selection).0;
    let second = content_text(sources[1].bytes(), selection).0;
    assert(transcript_from(names, selection, sources, 2) == TranscriptView::empty());
    assert(transcript_from(names, selection, sources, 1) =~~= TranscriptView {
        stdout: header(1, 2, names[1]) + second,
        stderr: Seq::empty(),
        failure: None,
    });
    assert(transcript(names, selection, sources).stdout =~= (header(0, 2, names[0]) + first) + (
        header(1, 2, names[1]) + second));
    assert(transcript(names, selection, sources).stderr =~= Seq::<char>::empty());
}

/// What is still to come from a state, with the source at hand read up to
/// `offset`.
spec fn remaining(state: EmitterView, sources: Seq<Source>, offset: int) -> TranscriptView {
    let data = sources[state.index as int].bytes();
    let rest = transcript_from(
        state.sources,
        state.selection,
        sources,
        state.index as int + 1,
    );
    match state.stage {
        Stage::Opening => transcript_from(
            state.sources,
            state.selection,
            sources,
            state.index as int,
        ),
        Stage::ReadingBytes(count) => rest.after(decoded(byte_prefix(data, count)), Seq::empty()),
        Stage::ReadingLines(left) => {
            let body = lines_read(data, offset, left);
            if body.1 {
                rest.after(body.0, Seq::empty())
            } else {
                TranscriptView::failed(body.0, invalid_text())
            }
        },
        Stage::Finished => TranscriptView::empty(),
        Stage::Failed(reason) => TranscriptView::failed(Seq::empty(), reason),
    }
}

/// An event and the reader's new offset carry a state forward: what was
/// still to come is what the event writes, then what is to come after it.
spec fn carried(
    before: EmitterView,
    sources: Seq<Source>,
    offset_before: int,
    event: Event,
    offset: int,
) -> bool {
    remaining(before, sources, offset_before) =~~= remaining(
        before.next(event),
        sources,
        offset,
    ).after(before.stdout(event), before.stderr(event))
}

/// Opening a source carries the run forward, whatever came of it.
proof fn lemma_open(state: EmitterView, sources: Seq<Source>, event: Event, offset: int)
    requires
        state.wf(),
        state.stage is Opening,
        sources.len() == state.sources.len(),
        match sources[state.index as int] {
            Source::Unopened(reason) => event matches Event::OpenFailed(text) && text@ == reason@,
            Source::Content(_) => event is Opened,
        },
    ensures
        carried(state, sources, offset, event, 0),
{
    let next = state.next(event);
    let rest = transcript_from(state.sources, state.selection, sources, state.index as int + 1);
    assert(next.stage is Finished ==> rest == TranscriptView::empty());
    match sources[state.index as int] {
        Source::Unopened(_) => {},
        Source::Content(data) => {
            let head = header(state.index, state.sources.len(), state.name());
            let body = content_text(data@, state.selection);
            assert(head + Seq::<char>::empty() =~= head);
            if body.1 {
                assert((head + body.0) + rest.stdout =~= head + (body.0 + rest.stdout));
            }
        },
    }
}

/// Reading the leading bytes carries the run forward.
proof fn lemma_bytes(state: EmitterView, sources: Seq<Source>, event: Event, offset: int)
    requires
        state.wf(),
        sources.len() == state.sources.len(),
        state.stage matches Stage::ReadingBytes(count) && event matches Event::Bytes(part)
            && part@ == byte_prefix(sources[state.index as int].bytes(), count),
    ensures
        carried(state, sources, offset, event, offset),
{
    let rest = transcript_from(state.sources, state.selection, sources, state.index as int + 1);
    assert(state.next(event).stage is Finished ==> rest == TranscriptView::empty());
    if let Stage::ReadingBytes(count) = state.stage {
        let part = byte_prefix(sources[state.index as int].bytes(), count);
        assert(byte_prefix(part, count) =~= part);
    }
}

/// Reading a line carries the run forward: the end of the source, a line
/// of text, or a line that is no text.
proof fn lemma_line(state: EmitterView, sources: Seq<Source>, event: Event, from: int, to: int)
    requires
        state.wf(),
        sources.len() == state.sources.len(),
        state.stage is ReadingLines,
        0 <= from <= sources[state.index as int].bytes().len(),
        ({
            let data = sources[state.index as int].bytes();
            let end = line_end(data, from);
            if end == from {
                event matches Event::Line(line) && line@.len() == 0 && to == from
            } else if valid_utf8(data.subrange(from, end)) {
                event matches Event::Line(line) && line@ == decode_utf8(data.subrange(from, end))
                    && to == end
            } else {
                event matches Event::ReadFailed(reason) && reason@ == invalid_text() && to == from
            }
        }),
    ensures
        carried(state, sources, from, event, to),
{
    let data = sources[state.index as int].bytes();
    let end = line_end(data, from);
    let left = state.stage->ReadingLines_0;
    let rest = transcript_from(state.sources, state.selection, sources, state.index as int + 1);
    let next = state.next(event);
    lemma_line_end(data, from);
    assert(next.stage is Finished ==> rest == TranscriptView::empty());
    let body = lines_read(data, from, left);
    if end != from && valid_utf8(data.subrange(from, end)) {
        let line = decode_utf8(data.subrange(from, end));
        assert(line.len() > 0);
        let tail = lines_read(data, end, (left - 1) as nat);
        assert(body == (line + tail.0, tail.1));
        if left <= 1 {
            assert(tail == (Seq::<char>::empty(), true));
            assert(line + Seq::<char>::empty() =~= line);
        } else if tail.1 {
            assert((line + tail.0) + rest.stdout =~= line + (tail.0 + rest.stdout));
        }
    }
}

/// How far a stage is from the end of its source.
spec fn rank(stage: Stage) -> nat {
    match stage {
        Stage::Opening => 2,
        Stage::ReadingBytes(_) => 1,
        Stage::ReadingLines(_) => 1,
        _ => 0,
    }
}

/// The lines that a stage may still read.
spec fn lines_left(stage: Stage) -> nat {
    match stage {
        Stage::ReadingLines(left) => left,
        _ => 0,
    }
}

/// Runs a configuration over sources held in memory, one for each source
/// name and in the same order, and returns what the run writes.
pub fn run(config: Config, sources: &Vec<Source>) -> (r: Transcript)
    requires
        sources@.len() == config@.sources.len(),
    ensures
        r@ == transcript(config@.sources, config@.selection, sources@),
{
    let ghost names = config@.sources;
    let ghost selection = config@.selection;
    let ghost whole = transcript_from(names, selection, sources@, 0);
    let mut emitter = Emitter::new(config);
    let mut stdout = String::new();
    let mut stderr = String::new();
    let mut offset: usize = 0;
    assert(remaining(emitter@, sources@, 0).after(stdout@, stderr@) =~= whole);
    loop
        invariant
            names == config@.sources,
            selection == config@.selection,
            whole == transcript_from(names, selection, sources@, 0),
            emitter@.wf(),
            emitter@.sources == names,
            emitter@.selection == selection,
            sources@.len() == names.len(),
            emitter@.stage is ReadingBytes || emitter@.stage is ReadingLines
                ==> sources@[emitter@.index as int] is Content,
            emitter@.stage is ReadingLines ==> offset <= sources@[emitter@.index as int].bytes().len(),
            whole == remaining(emitter@, sources@, offset as int).after(stdout@, stderr@),
        decreases names.len() - emitter@.index, rank(emitter@.stage), lines_left(emitter@.stage),
    {
        let action = emitter.action();
        let index = emitter.index();
        let ghost before = emitter@;
        let ghost offset_before = offset as int;
        let event = match action {
            Action::Finish => {
                assert(stdout@ + Seq::<char>::empty() =~= stdout@);
                assert(stderr@ + Seq::<char>::empty() =~= stderr@);
                return Transcript { stdout, stderr, failure: None };
            },
            Action::Abort(reason) => {
                assert(stdout@ + Seq::<char>::empty() =~= stdout@);
                assert(stderr@ + Seq::<char>::empty() =~= stderr@);
                return Transcript { stdout, stderr, failure: Some(reason) };
            },
            Action::OpenStdin | Action::OpenFile(_) => {
                offset = 0;
                let event = match &sources[index] {
                    Source::Unopened(reason) => Event::OpenFailed(reason.clone()),
                    Source::Content(_) => Event::Opened,
                };
                proof {
                    lemma_open(before, sources@, event, offset_before);
                }
                event
            },
            Action::ReadBytes(count) => {
                let data = sources[index].content();
                let kept: usize = if count < data.len() {
                    count
                } else {
                    data.len()
                };
                let part = slice_subrange(data, 0, kept);
                assert(part@ =~= byte_prefix(data@, count as nat));
                let event = Event::Bytes(slice_to_vec(part));
                proof {
                    lemma_bytes(before, sources@, event, offset_before);
                }
                event
            },
            Action::ReadLine => {
                let data = sources[index].content();
                let end = find_line_end(data, offset);
                let event = if end == offset {
                    Event::Line(String::new())
                } else {
                    match decode_strict(slice_subrange(data, offset, end)) {
                        Some(line) => {
                            offset = end;
                            Event::Line(line)
                        },
                        None => Event::ReadFailed(
                            String::from_str("stream did not contain valid UTF-8"),
                        ),
                    }
                };
                proof {
                    lemma_line(before, sources@, event, offset_before, offset as int);
                }
                event
            },
        };
        let (next, output) = emitter.step(event);
        emitter = next;
        proof {
            let out = before.stdout(event);
            let err = before.stderr(event);
            let now = remaining(emitter@, sources@, offset as int);
            assert(carried(before, sources@, offset_before, event, offset as int));
            assert(now.after(out, err).after(stdout@, stderr@) =~~= now.after(
                stdout@ + out,
                stderr@ + err,
            ));
        }
        stdout.append(output.stdout.as_str());
        stderr.append(output.stderr.as_str());
    }
}

} // verus!
