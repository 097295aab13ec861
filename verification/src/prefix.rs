//! The leading part of a byte sequence, by bytes and by lines.

use vstd::prelude::*;
use vstd::utf8::*;
use crate::text::lemma_cut_behind_ascii;

verus! {

/// The byte that ends a line.
pub const NEWLINE: u8 = 10;

/// The first `limit` bytes, or all of them where there are fewer.
pub open spec fn byte_prefix(data: Seq<u8>, limit: nat) -> Seq<u8> {
    if limit < data.len() {
        data.take(limit as int)
    } else {
        data
    }
}

/// Where the line that starts at `from` ends: behind its newline, or at
/// the end of the data where no newline follows.
pub open spec fn line_end(data: Seq<u8>, from: int) -> int
    decreases data.len() - from,
{
    if from < 0 || from >= data.len() {
        data.len() as int
    } else if data[from] == NEWLINE {
        from + 1
    } else {
        line_end(data, from + 1)
    }
}

/// Where the `count` lines that start at `from` end.
pub open spec fn lines_end(data: Seq<u8>, from: int, count: nat) -> int
    decreases count,
{
    if count == 0 {
        from
    } else {
        lines_end(data, line_end(data, from), (count - 1) as nat)
    }
}

/// The first `limit` lines, newlines included, or all of the data where it
/// has fewer.
pub open spec fn line_prefix(data: Seq<u8>, limit: nat) -> Seq<u8> {
    data.take(lines_end(data, 0, limit))
}

/// What reading up to `count` lines from `from` on yields as text, and
/// whether every line read was valid UTF-8. Reading stops at the first
/// line that is not.
pub open spec fn lines_read(data: Seq<u8>, from: int, count: nat) -> (Seq<char>, bool)
    decreases count,
{
    let end = line_end(data, from);
    if count == 0 || end <= from {
        (Seq::empty(), true)
    } else if !valid_utf8(data.subrange(from, end)) {
        (Seq::empty(), false)
    } else {
        let rest = lines_read(data, end, (count - 1) as nat);
        (decode_utf8(data.subrange(from, end)) + rest.0, rest.1)
    }
}

/// The number of newlines in the data.
pub open spec fn newlines(data: Seq<u8>) -> nat
    decreases data.len(),
{
    if data.len() == 0 {
        0
    } else if data.last() == NEWLINE {
        newlines(data.drop_last()) + 1
    } else {
        newlines(data.drop_last())
    }
}

/// The number of lines in the data: those that a newline ends, and the
/// unfinished one behind them where there is one.
pub open spec fn line_count(data: Seq<u8>) -> nat {
    if data.len() > 0 && data.last() != NEWLINE {
        newlines(data) + 1
    } else {
        newlines(data)
    }
}

/// A line ends behind its start, within the data, and holds no newline
/// before its last byte.
pub proof fn lemma_line_end(data: Seq<u8>, from: int)
    requires
        0 <= from <= data.len(),
    ensures
        from <= line_end(data, from) <= data.len(),
        from < data.len() ==> from < line_end(data, from),
        forall|i: int| from <= i < line_end(data, from) - 1 ==> data[i] != NEWLINE,
        line_end(data, from) < data.len() ==> data[line_end(data, from) - 1] == NEWLINE,
    decreases data.len() - from,
{
    if from < data.len() && data[from] != NEWLINE {
        lemma_line_end(data, from + 1);
    }
}

/// Lines that start at the end of the data end there.
proof fn lemma_lines_end_at_end(data: Seq<u8>, count: nat)
    ensures
        lines_end(data, data.len() as int, count) == data.len(),
    decreases count,
{
    if count > 0 {
        lemma_lines_end_at_end(data, (count - 1) as nat);
    }
}

/// Lines end behind their start and within the data.
pub proof fn lemma_lines_end(data: Seq<u8>, from: int, count: nat)
    requires
        0 <= from <= data.len(),
    ensures
        from <= lines_end(data, from, count) <= data.len(),
    decreases count,
{
    if count > 0 {
        lemma_line_end(data, from);
        lemma_lines_end(data, line_end(data, from), (count - 1) as nat);
    }
}

/// The newlines of two parts add up.
proof fn lemma_newlines_add(a: Seq<u8>, b: Seq<u8>)
    ensures
        newlines(a + b) == newlines(a) + newlines(b),
    decreases b.len(),
{
    if b.len() == 0 {
        assert(a + b =~= a);
    } else {
        assert((a + b).drop_last() =~= a + b.drop_last());
        lemma_newlines_add(a, b.drop_last());
    }
}

/// Data without a newline byte has no newlines.
proof fn lemma_newlines_none(data: Seq<u8>)
    requires
        forall|i: int| 0 <= i < data.len() ==> data[i] != NEWLINE,
    ensures
        newlines(data) == 0,
    decreases data.len(),
{
    if data.len() > 0 {
        lemma_newlines_none(data.drop_last());
    }
}

/// The newlines of the data from `from` on: those of its first line, and
/// those behind it.
proof fn lemma_newlines_of_line(data: Seq<u8>, from: int)
    requires
        0 <= from < data.len(),
    ensures
        ({
            let end = line_end(data, from);
            let line = data.subrange(from, end);
            let rest = data.subrange(end, data.len() as int);
            &&& newlines(data.subrange(from, data.len() as int)) == newlines(line) + newlines(rest)
            &&& newlines(line) == (if data[end - 1] == NEWLINE {
                1nat
            } else {
                0nat
            })
            &&& data[end - 1] != NEWLINE ==> end == data.len()
        }),
{
    let end = line_end(data, from);
    let line = data.subrange(from, end);
    let rest = data.subrange(end, data.len() as int);
    lemma_line_end(data, from);
    assert(data.subrange(from, data.len() as int) =~= line + rest);
    lemma_newlines_add(line, rest);
    lemma_newlines_none(line.drop_last());
}

/// Of data with at least `count` newlines from `from` on, the `count`
/// lines that start there hold `count` newlines and end with one.
proof fn lemma_lines_exact(data: Seq<u8>, from: int, count: nat)
    requires
        0 <= from <= data.len(),
        newlines(data.subrange(from, data.len() as int)) >= count,
    ensures
        ({
            let end = lines_end(data, from, count);
            &&& from <= end <= data.len()
            &&& newlines(data.subrange(from, end)) == count
            &&& count > 0 ==> from < end && data[end - 1] == NEWLINE
        }),
    decreases count,
{
    if count > 0 {
        let mid = line_end(data, from);
        lemma_line_end(data, from);
        lemma_newlines_of_line(data, from);
        lemma_lines_exact(data, mid, (count - 1) as nat);
        let end = lines_end(data, from, count);
        assert(data.subrange(from, end) =~= data.subrange(from, mid) + data.subrange(mid, end));
        lemma_newlines_add(data.subrange(from, mid), data.subrange(mid, end));
    }
}

/// Of data with at most `count` lines from `from` on, the `count` lines
/// that start there reach the end.
proof fn lemma_lines_whole(data: Seq<u8>, from: int, count: nat)
    requires
        0 <= from <= data.len(),
        line_count(data.subrange(from, data.len() as int)) <= count,
    ensures
        lines_end(data, from, count) == data.len(),
    decreases count,
{
    if from == data.len() {
        lemma_lines_end_at_end(data, count);
    } else {
        let mid = line_end(data, from);
        lemma_line_end(data, from);
        lemma_newlines_of_line(data, from);
        assert(data.subrange(from, data.len() as int).last() == data.last());
        if mid == data.len() {
            lemma_lines_end_at_end(data, (count - 1) as nat);
        } else {
            assert(data.subrange(mid, data.len() as int).last() == data.last());
            lemma_lines_whole(data, mid, (count - 1) as nat);
        }
    }
}

/// Where the data has at least `limit` lines that a newline ends, the
/// line prefix is exactly the first `limit` of them: it is the leading
/// part of the data that holds `limit` newlines and ends with one.
pub proof fn lemma_line_prefix_exact(data: Seq<u8>, limit: nat)
    requires
        newlines(data) >= limit,
    ensures
        line_prefix(data, limit).is_prefix_of(data),
        newlines(line_prefix(data, limit)) == limit,
        limit > 0 ==> line_prefix(data, limit).len() > 0 && line_prefix(data, limit).last()
            == NEWLINE,
{
    assert(data.subrange(0, data.len() as int) =~= data);
    lemma_lines_exact(data, 0, limit);
}

/// Where the data has no more than `limit` lines, the line prefix is all
/// of it, unchanged.
pub proof fn lemma_line_prefix_whole(data: Seq<u8>, limit: nat)
    requires
        line_count(data) <= limit,
    ensures
        line_prefix(data, limit) == data,
{
    assert(data.subrange(0, data.len() as int) =~= data);
    lemma_lines_whole(data, 0, limit);
    assert(data.take(data.len() as int) =~= data);
}

/// Of data that is valid UTF-8 from `from` on, every line is read, and
/// what is read is the text of the lines.
proof fn lemma_lines_read_text(data: Seq<u8>, from: int, count: nat)
    requires
        0 <= from <= data.len(),
        valid_utf8(data.subrange(from, data.len() as int)),
    ensures
        ({
            let end = lines_end(data, from, count);
            &&& from <= end <= data.len()
            &&& valid_utf8(data.subrange(from, end))
            &&& valid_utf8(data.subrange(end, data.len() as int))
            &&& lines_read(data, from, count) == (decode_utf8(data.subrange(from, end)), true)
        }),
    decreases count,
{
    let tail = data.subrange(from, data.len() as int);
    if count == 0 {
        assert(data.subrange(from, from) =~= Seq::<u8>::empty());
    } else {
        let mid = line_end(data, from);
        let end = lines_end(data, from, count);
        lemma_line_end(data, from);
        lemma_lines_end(data, mid, (count - 1) as nat);
        lemma_cut_behind_ascii(tail, mid - from);
        assert(tail.subrange(0, mid - from) =~= data.subrange(from, mid));
        assert(tail.subrange(mid - from, tail.len() as int) =~= data.subrange(
            mid,
            data.len() as int,
        ));
        lemma_lines_read_text(data, mid, (count - 1) as nat);
        let part = data.subrange(from, end);
        assert(part =~= data.subrange(from, mid) + data.subrange(mid, end));
        valid_utf8_concat(data.subrange(from, mid), data.subrange(mid, end));
        lemma_cut_behind_ascii(part, mid - from);
        assert(part.subrange(0, mid - from) =~= data.subrange(from, mid));
        assert(part.subrange(mid - from, part.len() as int) =~= data.subrange(mid, end));
        if mid == from {
            assert(data.subrange(from, end) =~= Seq::<u8>::empty());
        }
    }
}

/// Of data that is valid UTF-8, reading up to `limit` lines never fails,
/// and yields the text of the line prefix.
pub proof fn lemma_lines_of_text(data: Seq<u8>, limit: nat)
    requires
        valid_utf8(data),
    ensures
        valid_utf8(line_prefix(data, limit)),
        lines_read(data, 0, limit) == (decode_utf8(line_prefix(data, limit)), true),
{
    assert(data.subrange(0, data.len() as int) =~= data);
    lemma_lines_read_text(data, 0, limit);
}

/// Finds where the line that starts at `from` ends.
pub fn find_line_end(data: &[u8], from: usize) -> (end: usize)
    requires
        from <= data@.len(),
    ensures
        end == line_end(data@, from as int),
        from <= end <= data@.len(),
{
    let mut i: usize = from;
    while i < data.len()
        invariant
            from <= i <= data@.len(),
            line_end(data@, from as int) == line_end(data@, i as int),
        decreases data@.len() - i,
    {
        if data[i] == NEWLINE {
            return i + 1;
        }
        i = i + 1;
    }
    i
}

} // verus!
