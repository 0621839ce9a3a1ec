//! What the reading of frames promises.

use crate::frame::{self, FrameValue, Partial};
use vstd::prelude::*;

verus! {

/// The carriage returns at the end of a line are no part of it, however many there
/// are; every other character is.
pub proof fn carriage_returns_are_trimmed(line: Seq<char>, count: nat)
    requires
        line.len() > 0 ==> line.last() != '\r',
    ensures
        frame::without_returns(line + Seq::new(count, |i: int| '\r')) == line,
    decreases count,
{
    let whole = line + Seq::new(count, |i: int| '\r');
    if count == 0 {
        assert(whole =~= line);
    } else {
        let fewer = (count - 1) as nat;
        assert(whole.last() == '\r');
        assert(whole.drop_last() =~= line + Seq::new(fewer, |i: int| '\r'));
        carriage_returns_are_trimmed(line, fewer);
    }
}

/// A line of text of at most 65536 bytes is read, however the stream is cut; a longer
/// one, or one that is no text, is dropped. Either way the next read starts right
/// behind its newline.
pub proof fn short_lines_of_text_are_read(chunks: Seq<Seq<u8>>, line: Seq<u8>, rest: Seq<u8>)
    requires
        chunks.flatten() == line.push(10u8) + rest,
        !line.contains(10u8),
    ensures
        ({
            let read = frame::stream_read(frame::fresh(), chunks);
            &&& read.0.bytes.len() == 0 && !read.0.dropped
            &&& read.1 == line.len() + 1
            &&& line.len() <= 65536 && vstd::utf8::valid_utf8(line) ==> read.2 == Some(
                FrameValue::Line(frame::without_returns(vstd::utf8::decode_utf8(line))),
            )
            &&& line.len() > 65536 || !vstd::utf8::valid_utf8(line) ==> read.2 == Some(
                FrameValue::Oversized,
            )
        }),
{
    frame::chunks_do_not_matter(frame::fresh(), chunks);
    assert forall|k: int| 0 <= k < line.len() implies line[k] != 10u8 by {
        assert(line.contains(line[k]));
    }
    frame::newlines_resynchronize(frame::fresh(), line, rest);
    assert(Seq::<u8>::empty() + line =~= line);
}

/// What the stream ends in without a newline is read as it is; an empty rest is the
/// end.
pub proof fn the_end_of_the_stream_ends_a_line(bytes: Seq<u8>)
    ensures
        ({
            let held = Partial { bytes, dropped: false };
            let gone = Partial { bytes, dropped: true };
            &&& frame::ended(gone) == FrameValue::Oversized
            &&& bytes.len() == 0 ==> frame::ended(held) == FrameValue::Eof
            &&& bytes.len() > 0 && vstd::utf8::valid_utf8(bytes) ==> frame::ended(held)
                == FrameValue::Line(vstd::utf8::decode_utf8(bytes))
            &&& bytes.len() > 0 && !vstd::utf8::valid_utf8(bytes) ==> frame::ended(held)
                == FrameValue::Oversized
        }),
{
}

/// Bytes without a newline complete no frame: all of them are taken, and held up to
/// the cap.
pub proof fn unfinished_lines_are_held(partial: Partial, chunk: Seq<u8>)
    requires
        !chunk.contains(10u8),
    ensures
        ({
            let read = frame::chunk_read(partial, chunk);
            let len = partial.bytes.len() + chunk.len();
            &&& read.1 == chunk.len()
            &&& read.2 is None
            &&& !partial.dropped && len <= 65536 ==> read.0.bytes == partial.bytes + chunk
                && !read.0.dropped
            &&& partial.dropped || len > 65536 ==> read.0.dropped && read.0.bytes.len() == 0
        }),
{
    lemma_no_newline(chunk);
    assert(chunk.take(chunk.len() as int) =~= chunk);
}

proof fn lemma_no_newline(bytes: Seq<u8>)
    requires
        !bytes.contains(10u8),
    ensures
        frame::line_length(bytes) == bytes.len(),
    decreases bytes.len(),
{
    if bytes.len() > 0 {
        assert(bytes.contains(bytes[0]));
        let rest = bytes.skip(1);
        assert(!rest.contains(10u8)) by {
            if rest.contains(10u8) {
                let k = choose|k: int| 0 <= k < rest.len() && rest[k] == 10u8;
                assert(bytes[k + 1] == 10u8);
            }
        }
        lemma_no_newline(rest);
    }
}

} // verus!
