//! Bounded reading of newline-terminated frames from a child's output.
//!
//! A line longer than the cap is drained and dropped rather than buffered whole,
//! so a broken child cannot exhaust memory with an endless line. The drain
//! consumes through the newline, so the stream resynchronizes at the next frame.

use crate::log::NEWLINE;
use crate::text;
use vstd::prelude::*;

verus! {

broadcast use vstd::string::group_string_axioms;

/// The largest protocol frame accepted from a bridged child before the frame is
/// dropped and the stream resynchronizes at the next newline. The read is
/// bounded, so an endless line cannot exhaust memory before the cap is checked.
pub const MAX_FRAME_BYTES: usize = 65536;

/// One bounded read from the child's output.
#[derive(Debug)]
pub enum ReadFrame {
    /// A complete line, without its newline.
    Line(String),
    /// A line that is longer than the cap, or that is no text; it was drained and
    /// dropped.
    Oversized,
    /// The stream ended.
    Eof,
}

/// One bounded read, as plain values.
pub enum FrameValue {
    Line(Seq<char>),
    Oversized,
    Eof,
}

impl View for ReadFrame {
    type V = FrameValue;

    open spec fn view(&self) -> FrameValue {
        match self {
            ReadFrame::Line(line) => FrameValue::Line(line@),
            ReadFrame::Oversized => FrameValue::Oversized,
            ReadFrame::Eof => FrameValue::Eof,
        }
    }
}

/// A frame being read: the bytes of its line so far, and whether it was dropped.
#[verifier::ext_equal]
pub struct Partial {
    pub bytes: Seq<u8>,
    pub dropped: bool,
}

/// A frame of which nothing was read.
pub open spec fn fresh() -> Partial {
    Partial { bytes: Seq::empty(), dropped: false }
}

/// A frame that was dropped: nothing is held of it.
pub open spec fn dropped() -> Partial {
    Partial { bytes: Seq::empty(), dropped: true }
}

/// Whether a frame holds no more than it may: the cap, and nothing once it was
/// dropped.
pub open spec fn is_bounded(partial: Partial) -> bool {
    partial.bytes.len() <= MAX_FRAME_BYTES && (partial.dropped ==> partial.bytes.len() == 0)
}

/// The frame with more bytes of its line: one over the cap is dropped.
pub open spec fn absorbed(partial: Partial, part: Seq<u8>) -> Partial {
    if partial.dropped || partial.bytes.len() + part.len() > MAX_FRAME_BYTES {
        dropped()
    } else {
        Partial { bytes: partial.bytes + part, dropped: false }
    }
}

/// The text without the carriage returns at its end.
pub open spec fn without_returns(line: Seq<char>) -> Seq<char>
    decreases line.len(),
{
    if line.len() > 0 && line.last() == '\r' {
        without_returns(line.drop_last())
    } else {
        line
    }
}

/// The frame at its newline: its line as text, without the carriage returns at
/// its end.
pub open spec fn completed(partial: Partial) -> FrameValue {
    if partial.dropped || !vstd::utf8::valid_utf8(partial.bytes) {
        FrameValue::Oversized
    } else {
        FrameValue::Line(without_returns(vstd::utf8::decode_utf8(partial.bytes)))
    }
}

/// The frame at the end of the stream.
pub open spec fn ended(partial: Partial) -> FrameValue {
    if partial.dropped {
        FrameValue::Oversized
    } else if partial.bytes.len() == 0 {
        FrameValue::Eof
    } else if vstd::utf8::valid_utf8(partial.bytes) {
        FrameValue::Line(vstd::utf8::decode_utf8(partial.bytes))
    } else {
        FrameValue::Oversized
    }
}

/// How many bytes come before the first newline.
pub open spec fn line_length(bytes: Seq<u8>) -> int
    decreases bytes.len(),
{
    if bytes.len() == 0 || bytes[0] == NEWLINE {
        0
    } else {
        1 + line_length(bytes.skip(1))
    }
}

/// What a chunk of the stream leads to: the frame after it, how many of its
/// bytes were read, and the frame that it completed.
pub open spec fn chunk_read(partial: Partial, chunk: Seq<u8>) -> (
    Partial,
    int,
    Option<FrameValue>,
) {
    let end = line_length(chunk);
    let next = absorbed(partial, chunk.take(end));
    if end < chunk.len() {
        (fresh(), end + 1, Some(completed(next)))
    } else {
        (next, end, None)
    }
}

/// What chunks of the stream lead to, up to the first frame that they complete:
/// the frame after them, how many of their bytes were read, and that frame.
pub open spec fn stream_read(partial: Partial, chunks: Seq<Seq<u8>>) -> (
    Partial,
    int,
    Option<FrameValue>,
)
    decreases chunks.len(),
{
    if chunks.len() == 0 {
        (partial, 0, None)
    } else {
        let (next, consumed, frame) = chunk_read(partial, chunks[0]);
        if frame is Some {
            (next, consumed, frame)
        } else {
            let (last, more, later) = stream_read(next, chunks.skip(1));
            (last, consumed + more, later)
        }
    }
}

proof fn lemma_line_length(bytes: Seq<u8>, at: int)
    requires
        0 <= at <= bytes.len(),
        forall|k: int| 0 <= k < at ==> bytes[k] != NEWLINE,
        at < bytes.len() ==> bytes[at] == NEWLINE,
    ensures
        line_length(bytes) == at,
    decreases bytes.len(),
{
    if at > 0 {
        assert forall|k: int| 0 <= k < at - 1 implies bytes.skip(1)[k] != NEWLINE by {
            assert(bytes.skip(1)[k] == bytes[k + 1]);
        }
        if at < bytes.len() {
            assert(bytes.skip(1)[at - 1] == bytes[at]);
        }
        lemma_line_length(bytes.skip(1), at - 1);
    }
}

proof fn lemma_before_newline(bytes: Seq<u8>)
    ensures
        0 <= line_length(bytes) <= bytes.len(),
        forall|k: int| 0 <= k < line_length(bytes) ==> bytes[k] != NEWLINE,
        line_length(bytes) < bytes.len() ==> bytes[line_length(bytes)] == NEWLINE,
    decreases bytes.len(),
{
    if bytes.len() > 0 && bytes[0] != NEWLINE {
        let rest = bytes.skip(1);
        lemma_before_newline(rest);
        assert forall|k: int| 0 <= k < line_length(bytes) implies bytes[k] != NEWLINE by {
            if k > 0 {
                assert(rest[k - 1] == bytes[k]);
            }
        }
        if line_length(bytes) < bytes.len() {
            assert(rest[line_length(rest)] == bytes[line_length(bytes)]);
        }
    }
}

/// Where a line is cut does not matter, not even inside a character: two parts of
/// it leave the same frame as both at once.
pub proof fn cuts_do_not_matter(partial: Partial, a: Seq<u8>, b: Seq<u8>)
    ensures
        absorbed(absorbed(partial, a), b) == absorbed(partial, a + b),
{
    assert(partial.bytes + a + b =~= partial.bytes + (a + b));
}

/// How the stream is cut into chunks does not matter: they lead to the same frame,
/// after as many bytes, as one chunk with all that they hold.
pub proof fn chunks_do_not_matter(partial: Partial, chunks: Seq<Seq<u8>>)
    requires
        is_bounded(partial),
    ensures
        stream_read(partial, chunks) == chunk_read(partial, chunks.flatten()),
    decreases chunks.len(),
{
    if chunks.len() == 0 {
        assert(chunks.flatten() =~= Seq::<u8>::empty());
        assert(chunks.flatten().take(0) =~= Seq::<u8>::empty());
        assert(partial.bytes + Seq::<u8>::empty() =~= partial.bytes);
        assert(absorbed(partial, Seq::<u8>::empty()) =~= partial);
    } else {
        let first = chunks[0];
        let rest = chunks.skip(1);
        let all = chunks.flatten();
        assert(chunks.drop_first() =~= rest);
        assert(all == first + rest.flatten());
        lemma_before_newline(first);
        let end = line_length(first);
        assert forall|k: int| 0 <= k < end implies all[k] != NEWLINE by {
            assert(all[k] == first[k]);
        }
        if end < first.len() {
            assert(all[end] == first[end]);
            lemma_line_length(all, end);
            assert(all.take(end) =~= first.take(end));
        } else {
            let next = absorbed(partial, first);
            assert(first.take(end) =~= first);
            chunks_do_not_matter(next, rest);
            let after = rest.flatten();
            lemma_before_newline(after);
            let more = line_length(after);
            assert forall|k: int| 0 <= k < end + more implies all[k] != NEWLINE by {
                if k >= end {
                    assert(all[k] == after[k - end]);
                }
            }
            if more < after.len() {
                assert(all[end + more] == after[more]);
            }
            lemma_line_length(all, end + more);
            assert(all.take(end + more) =~= first + after.take(more));
            cuts_do_not_matter(partial, first, after.take(more));
        }
    }
}

/// A line of text within the cap is read, however the stream is cut: its text
/// without the carriage returns at its end, and no byte past its newline.
pub proof fn lines_within_the_cap_are_read(chunks: Seq<Seq<u8>>, line: Seq<u8>, rest: Seq<u8>)
    requires
        chunks.flatten() == line.push(NEWLINE) + rest,
        forall|k: int| 0 <= k < line.len() ==> line[k] != NEWLINE,
        line.len() <= MAX_FRAME_BYTES,
        vstd::utf8::valid_utf8(line),
    ensures
        stream_read(fresh(), chunks) == (
            fresh(),
            line.len() as int + 1,
            Some(FrameValue::Line(without_returns(vstd::utf8::decode_utf8(line)))),
        ),
{
    chunks_do_not_matter(fresh(), chunks);
    newlines_resynchronize(fresh(), line, rest);
    assert(fresh().bytes + line =~= line);
}

/// A line over the cap is dropped, however the stream is cut, and drained through
/// its newline.
pub proof fn lines_over_the_cap_are_dropped(chunks: Seq<Seq<u8>>, line: Seq<u8>, rest: Seq<u8>)
    requires
        chunks.flatten() == line.push(NEWLINE) + rest,
        forall|k: int| 0 <= k < line.len() ==> line[k] != NEWLINE,
        line.len() > MAX_FRAME_BYTES,
    ensures
        stream_read(fresh(), chunks) == (
            fresh(),
            line.len() as int + 1,
            Some(FrameValue::Oversized),
        ),
{
    chunks_do_not_matter(fresh(), chunks);
    newlines_resynchronize(fresh(), line, rest);
}

/// No more than the cap is ever held of a line.
pub proof fn frames_are_bounded(partial: Partial, chunk: Seq<u8>)
    requires
        is_bounded(partial),
    ensures
        is_bounded(chunk_read(partial, chunk).0),
{
}

/// Whatever came before a newline, the frame after it starts clean: a dropped
/// line does not cost the next one.
pub proof fn newlines_resynchronize(partial: Partial, line: Seq<u8>, next: Seq<u8>)
    requires
        forall|k: int| 0 <= k < line.len() ==> line[k] != NEWLINE,
    ensures
        chunk_read(partial, line.push(NEWLINE) + next) == (
            fresh(),
            line.len() as int + 1,
            Some(completed(absorbed(partial, line))),
        ),
{
    let chunk = line.push(NEWLINE) + next;
    assert forall|k: int| 0 <= k < line.len() implies chunk[k] != NEWLINE by {
        assert(chunk[k] == line[k]);
    }
    lemma_line_length(chunk, line.len() as int);
    assert(chunk.take(line.len() as int) =~= line);
}

/// Reads frames from chunks of a stream. The bytes of a line are held until its
/// newline, so a character that a chunk cuts is whole again when it is decoded.
#[derive(Debug)]
pub struct FrameReader {
    bytes: Vec<u8>,
    dropped: bool,
}

impl View for FrameReader {
    type V = Partial;

    closed spec fn view(&self) -> Partial {
        Partial { bytes: self.bytes@, dropped: self.dropped }
    }
}

fn trim_returns(line: &str) -> (r: String)
    ensures
        r@ == without_returns(line@),
{
    let chars = text::to_chars(line);
    let mut end: usize = chars.len();
    proof {
        assert(chars@.take(end as int) =~= line@);
    }
    while end > 0 && chars[end - 1] == '\r'
        invariant
            end <= chars@.len(),
            without_returns(chars@.take(end as int)) == without_returns(line@),
        decreases end,
    {
        proof {
            assert(chars@.take(end as int).drop_last() =~= chars@.take(end - 1));
        }
        end = end - 1;
    }
    let trimmed = text::from_chars(&chars, 0, end);
    proof {
        assert(trimmed@ =~= chars@.take(end as int));
    }
    trimmed
}

impl FrameReader {
    #[verifier::type_invariant]
    spec fn bounded(&self) -> bool {
        self.bytes@.len() <= MAX_FRAME_BYTES && (self.dropped ==> self.bytes@.len() == 0)
    }

    /// A reader at the start of a frame.
    pub fn new() -> (r: FrameReader)
        ensures
            r@ == fresh(),
            is_bounded(r@),
    {
        FrameReader { bytes: Vec::new(), dropped: false }
    }

    fn absorb(&mut self, part: &[u8])
        ensures
            final(self)@ == absorbed(old(self)@, part@),
    {
        proof {
            use_type_invariant(&*self);
        }
        if self.dropped || part.len() > MAX_FRAME_BYTES - self.bytes.len() {
            *self = FrameReader { bytes: Vec::new(), dropped: true };
            return ;
        }
        let mut bytes: Vec<u8> = Vec::new();
        std::mem::swap(&mut bytes, &mut self.bytes);
        bytes.extend_from_slice(part);
        proof {
            assert(bytes@ =~= old(self)@.bytes + part@);
        }
        *self = FrameReader { bytes, dropped: false };
    }

    fn line(&self) -> (r: Option<String>)
        ensures
            match r {
                Some(line) => !self@.dropped && vstd::utf8::valid_utf8(self@.bytes) && line@
                    == vstd::utf8::decode_utf8(self@.bytes),
                None => self@.dropped || !vstd::utf8::valid_utf8(self@.bytes),
            },
    {
        if self.dropped {
            return None;
        }
        text::utf8_text(self.bytes.as_slice())
    }

    /// Reads from a chunk of the stream: at most through its first newline.
    /// Hands back how many bytes were read, and the frame if it is complete.
    pub fn on_chunk(&mut self, chunk: &[u8]) -> (r: (usize, Option<ReadFrame>))
        ensures
            ({
                let (next, consumed, frame) = chunk_read(old(self)@, chunk@);
                &&& final(self)@ == next
                &&& r.0 == consumed
                &&& match r.1 {
                    Some(read) => frame == Some(read@),
                    None => frame is None,
                }
            }),
    {
        let len: usize = chunk.len();
        let mut end: usize = 0;
        while end < len && chunk[end] != NEWLINE
            invariant
                len == chunk@.len(),
                end <= len,
                forall|k: int| 0 <= k < end ==> chunk@[k] != NEWLINE,
            decreases len - end,
        {
            end = end + 1;
        }
        proof {
            lemma_line_length(chunk@, end as int);
        }
        let part = vstd::slice::slice_subrange(chunk, 0, end);
        proof {
            assert(part@ =~= chunk@.take(end as int));
        }
        self.absorb(part);
        if end < len {
            let frame = match self.line() {
                Some(line) => ReadFrame::Line(trim_returns(line.as_str())),
                None => ReadFrame::Oversized,
            };
            *self = FrameReader::new();
            (end + 1, Some(frame))
        } else {
            (end, None)
        }
    }

    /// The stream ended.
    pub fn on_end(&mut self) -> (r: ReadFrame)
        ensures
            r@ == ended(old(self)@),
            final(self)@ == fresh(),
    {
        let frame = if !self.dropped && self.bytes.len() == 0 {
            ReadFrame::Eof
        } else {
            match self.line() {
                Some(line) => ReadFrame::Line(line),
                None => ReadFrame::Oversized,
            }
        };
        *self = FrameReader::new();
        frame
    }
}

} // verus!
