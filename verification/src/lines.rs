//! Lines of a byte stream.
//!
//! A stream is cut at every line feed. The line feed ends a line and is not
//! part of it, and neither is a carriage return that stands directly before
//! the line feed. What follows the last line feed is a line too, unless it is
//! empty.
use bytelines::{ByteLinesIter, ByteLinesReader};
use vstd::prelude::*;

verus! {

/// The byte that ends a line.
pub const LINE_FEED: u8 = 0x0a;

/// The byte that is dropped where it stands directly before a line feed.
pub const CARRIAGE_RETURN: u8 = 0x0d;

/// The number of bytes in front of the first line feed of `bytes`: the whole
/// length where `bytes` holds no line feed.
pub open spec fn line_break(bytes: Seq<u8>) -> int
    decreases bytes.len(),
{
    if bytes.len() == 0 || bytes[0] == LINE_FEED {
        0
    } else {
        1 + line_break(bytes.drop_first())
    }
}

/// `line` without one carriage return at its end, if it ends in one.
pub open spec fn without_carriage_return(line: Seq<u8>) -> Seq<u8> {
    if line.len() > 0 && line.last() == CARRIAGE_RETURN {
        line.drop_last()
    } else {
        line
    }
}

/// The first line of a stream that is not empty.
///
/// Where the stream holds a line feed, the line is what stands in front of
/// the first one, less a carriage return at its end. Where it holds none, the
/// line is the whole stream, byte for byte.
pub open spec fn first_line(bytes: Seq<u8>) -> Seq<u8> {
    let at = line_break(bytes);
    if at < bytes.len() {
        without_carriage_return(bytes.take(at))
    } else {
        bytes
    }
}

/// What is left of a stream once its first line has been taken.
pub open spec fn after_first_line(bytes: Seq<u8>) -> Seq<u8> {
    let at = line_break(bytes);
    if at < bytes.len() {
        bytes.skip(at + 1)
    } else {
        Seq::empty()
    }
}

/// The lines of a stream, in the order in which they stand in it.
pub open spec fn lines_of(bytes: Seq<u8>) -> Seq<Seq<u8>>
    decreases bytes.len(),
    via lines_of_decreases
{
    if bytes.len() == 0 {
        Seq::empty()
    } else {
        seq![first_line(bytes)] + lines_of(after_first_line(bytes))
    }
}

#[via_fn]
proof fn lines_of_decreases(bytes: Seq<u8>) {
    lemma_line_break_bounds(bytes);
}

/// The first line feed, if there is one, stands inside the stream, and no
/// line feed stands in front of it.
pub proof fn lemma_line_break_bounds(bytes: Seq<u8>)
    ensures
        0 <= line_break(bytes) <= bytes.len(),
        line_break(bytes) < bytes.len() ==> bytes[line_break(bytes)] == LINE_FEED,
        forall|i: int| 0 <= i < line_break(bytes) ==> bytes[i] != LINE_FEED,
    decreases bytes.len(),
{
    if bytes.len() == 0 || bytes[0] == LINE_FEED {
    } else {
        let rest = bytes.drop_first();
        lemma_line_break_bounds(rest);
        assert forall|i: int| 0 <= i < line_break(bytes) implies bytes[i] != LINE_FEED by {
            if i > 0 {
                assert(bytes[i] == rest[i - 1]);
            }
        }
    }
}

/// Taking the first line makes a stream that is not empty shorter.
pub proof fn lemma_after_first_line_shorter(bytes: Seq<u8>)
    requires
        bytes.len() > 0,
    ensures
        after_first_line(bytes).len() < bytes.len(),
{
    lemma_line_break_bounds(bytes);
}

/// A stream that is not empty and holds no line feed is one line: what
/// stands after the last line feed of a stream is a line though nothing ends
/// it, and it keeps a carriage return at its end.
pub proof fn lemma_lines_of_unterminated(line: Seq<u8>)
    requires
        line.len() > 0,
        forall|i: int| 0 <= i < line.len() ==> line[i] != LINE_FEED,
    ensures
        lines_of(line) == seq![line],
{
    lemma_line_break_bounds(line);
    assert(line_break(line) == line.len());
    assert(lines_of(Seq::<u8>::empty()) =~= Seq::<Seq<u8>>::empty());
    assert(seq![line] + Seq::<Seq<u8>>::empty() =~= seq![line]);
}

/// A stream that begins with a line and the line feed that ends it has that
/// line first, less a carriage return at its end, and then the lines of what
/// follows the line feed.
pub proof fn lemma_lines_of_terminated(line: Seq<u8>, rest: Seq<u8>)
    requires
        forall|i: int| 0 <= i < line.len() ==> line[i] != LINE_FEED,
    ensures
        lines_of(line + seq![LINE_FEED] + rest) == seq![without_carriage_return(line)] + lines_of(
            rest,
        ),
{
    let bytes = line + seq![LINE_FEED] + rest;
    lemma_line_break_bounds(bytes);
    assert(bytes[line.len() as int] == LINE_FEED);
    assert(line_break(bytes) == line.len()) by {
        if line_break(bytes) < line.len() {
            assert(bytes[line_break(bytes)] == line[line_break(bytes)]);
        }
    }
    assert(bytes.take(line.len() as int) =~= line);
    assert(bytes.skip(line.len() as int + 1) =~= rest);
}

/// A reader that hands out the lines of a byte slice one by one: the
/// `ByteLinesIter` of bytelines over that slice. The verifier does not look
/// inside it. All that is said of it is said by `open_lines` and `next_line`,
/// over `unread`.
#[verifier::external_body]
pub struct LineReader<'a> {
    inner: ByteLinesIter<&'a [u8]>,
}

/// The error of a read, `std::io::Error`. Nothing in this crate looks inside
/// it.
#[verifier::external_type_specification]
#[verifier::external_body]
pub struct ExIoError(std::io::Error);

/// The bytes of the slice that a reader has not read yet.
pub uninterp spec fn unread(reader: LineReader) -> Seq<u8>;

/// Calls `ByteLinesReader::byte_lines` of bytelines on a byte slice, and
/// `into_iter` on what that returns. Nothing is proved of the calls. The
/// contract claims that the new reader has read nothing yet: all of `input`
/// is still to come.
#[verifier::external_body]
pub(crate) fn open_lines<'a>(input: &'a [u8]) -> (reader: LineReader<'a>)
    ensures
        unread(reader) == input@,
{
    LineReader { inner: input.byte_lines().into_iter() }
}

/// Calls `ByteLinesIter::next` of bytelines. Nothing is proved of the call.
///
/// The contract claims what bytelines does with a reader over a byte slice.
/// With nothing left to read the call returns `None`, and nothing is left
/// afterwards either. Otherwise it reads up to and with the first line feed,
/// or to the end where there is none, and returns what it read without that
/// line feed and without a carriage return directly in front of it. Reading
/// from a byte slice is a copy out of memory and cannot fail, so the call
/// never returns an error here.
#[verifier::external_body]
pub(crate) fn next_line<'a>(reader: &mut LineReader<'a>) -> (read: Option<
    Result<Vec<u8>, std::io::Error>,
>)
    ensures
        unread(*old(reader)).len() == 0 ==> read is None && unread(*final(reader)).len() == 0,
        unread(*old(reader)).len() > 0 ==> (read matches Some(Ok(line)) && line@ == first_line(
            unread(*old(reader)),
        )),
        unread(*old(reader)).len() > 0 ==> unread(*final(reader)) == after_first_line(
            unread(*old(reader)),
        ),
{
    reader.inner.next()
}

} // verus!
