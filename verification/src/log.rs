//! The durable, append-only line log.
//!
//! The log is the source of truth: an event is acknowledged only after its line
//! was appended and synced. One writer owns the file and the sequence number,
//! which serializes every append and keeps the log order equal to the delivery
//! order. Appends are committed in batches that share a single sync.
//!
//! Events are stored one per line. Positions are one-based line numbers,
//! exposed as [`Lsn`].

use crate::text;
use vstd::prelude::*;

verus! {

broadcast use vstd::string::group_string_axioms;

/// The largest number of events committed in one group commit. Bounds the
/// memory a single batch can hold when the writer queue is large.
pub const MAX_BATCH_EVENTS: usize = 1024;

/// The default capacity of the live channel and of the writer queue.
pub const DEFAULT_CAPACITY: usize = 1024;

/// The byte that ends a line.
pub const NEWLINE: u8 = 10;

/// A one-based position in the event log.
pub type Lsn = u64;

/// Errors returned by the log.
#[derive(Debug)]
pub enum LogError {
    /// Reading, writing, truncating, or syncing the log file failed.
    Io(String),
    /// A log line could not be decoded, or an event could not be encoded.
    Json(String),
    /// The writer has stopped, so durability can no longer be promised.
    WriterStopped,
}

/// The error in words.
pub open spec fn log_error_text(error: LogError) -> Seq<char> {
    match error {
        LogError::Io(error) => error@,
        LogError::Json(error) => "event is not valid JSON: "@ + error@,
        LogError::WriterStopped => "the event log writer has stopped"@,
    }
}

impl LogError {
    /// The error in words.
    pub fn to_string(&self) -> (r: String)
        ensures
            r@ == match *self {
                LogError::Io(error) => error@,
                LogError::Json(error) => "event is not valid JSON: "@ + error@,
                LogError::WriterStopped => "the event log writer has stopped"@,
            },
            r@ == log_error_text(*self),
    {
        match self {
            LogError::Io(error) => error.clone(),
            LogError::Json(error) => text::concat("event is not valid JSON: ", error.as_str()),
            LogError::WriterStopped => "the event log writer has stopped".to_owned(),
        }
    }
}

/// The outcome of a publish from the writer's reply: a writer that went away
/// without one has stopped.
pub fn published(reply: Option<Result<Lsn, LogError>>) -> (r: Result<Lsn, LogError>)
    ensures
        r == match reply {
            Some(reply) => reply,
            None => Err(LogError::WriterStopped),
        },
{
    match reply {
        Some(reply) => reply,
        None => Err(LogError::WriterStopped),
    }
}

/// The complete lines of a file: everything in front of each line end.
pub open spec fn lines_of(bytes: Seq<u8>) -> Seq<Seq<u8>> {
    text::split(bytes, NEWLINE).drop_last()
}

/// The bytes behind the last line end: an append that was cut short.
pub open spec fn partial_line(bytes: Seq<u8>) -> Seq<u8> {
    text::split(bytes, NEWLINE).last()
}

/// Where the last complete line ends.
pub open spec fn complete_end(bytes: Seq<u8>) -> int {
    bytes.len() - partial_line(bytes).len()
}

/// Whether a file ends at the end of a line, or is empty.
pub open spec fn is_clean(bytes: Seq<u8>) -> bool {
    partial_line(bytes).len() == 0
}

/// The lines, each with its end, one after another.
pub open spec fn framed(lines: Seq<Seq<u8>>) -> Seq<u8>
    decreases lines.len(),
{
    if lines.len() == 0 {
        Seq::empty()
    } else {
        (framed(lines.drop_last()) + lines.last()).push(NEWLINE)
    }
}

proof fn lemma_partial_fits(bytes: Seq<u8>)
    ensures
        partial_line(bytes).len() <= bytes.len(),
        !partial_line(bytes).contains(NEWLINE),
        bytes == bytes.take(complete_end(bytes)) + partial_line(bytes),
    decreases bytes.len(),
{
    text::lemma_split_nonempty(bytes, NEWLINE);
    text::lemma_split_pieces(bytes, NEWLINE);
    let pieces = text::split(bytes, NEWLINE);
    assert(!pieces[pieces.len() - 1].contains(NEWLINE));
    if bytes.len() > 0 {
        let init = bytes.drop_last();
        lemma_partial_fits(init);
        text::lemma_split_nonempty(init, NEWLINE);
        if bytes.last() == NEWLINE {
            assert(partial_line(bytes) =~= Seq::<u8>::empty());
            assert(bytes.take(complete_end(bytes)) =~= bytes);
        } else {
            assert(partial_line(bytes) =~= partial_line(init).push(bytes.last()));
            assert(bytes.take(complete_end(bytes)) =~= init.take(complete_end(init)));
            assert(bytes =~= init.push(bytes.last()));
        }
    } else {
        assert(partial_line(bytes) =~= Seq::<u8>::empty());
    }
    assert(bytes =~= bytes.take(complete_end(bytes)) + partial_line(bytes));
}

/// Appending bytes without a line end leaves the complete lines alone and
/// extends the partial line.
proof fn lemma_append_tail(bytes: Seq<u8>, tail: Seq<u8>)
    requires
        !tail.contains(NEWLINE),
    ensures
        lines_of(bytes + tail) == lines_of(bytes),
        partial_line(bytes + tail) == partial_line(bytes) + tail,
    decreases tail.len(),
{
    text::lemma_split_nonempty(bytes, NEWLINE);
    if tail.len() == 0 {
        assert(bytes + tail =~= bytes);
        assert(partial_line(bytes) + tail =~= partial_line(bytes));
    } else {
        let shorter = tail.drop_last();
        assert(!shorter.contains(NEWLINE)) by {
            if shorter.contains(NEWLINE) {
                let k = choose|k: int| 0 <= k < shorter.len() && shorter[k] == NEWLINE;
                assert(tail[k] == NEWLINE);
            }
        }
        lemma_append_tail(bytes, shorter);
        text::lemma_split_nonempty(bytes + shorter, NEWLINE);
        let whole = bytes + tail;
        assert(whole.drop_last() =~= bytes + shorter);
        assert(whole.last() == tail.last());
        assert(tail[tail.len() - 1] != NEWLINE);
        let before = text::split(bytes + shorter, NEWLINE);
        assert(text::split(whole, NEWLINE).drop_last() =~= before.drop_last());
        assert(partial_line(whole) =~= partial_line(bytes + shorter).push(tail.last()));
        assert((partial_line(bytes) + shorter).push(tail.last()) =~= partial_line(bytes) + tail);
    }
}

/// Appending a line end completes the partial line.
proof fn lemma_append_end(bytes: Seq<u8>)
    ensures
        lines_of(bytes.push(NEWLINE)) == lines_of(bytes).push(partial_line(bytes)),
        is_clean(bytes.push(NEWLINE)),
{
    text::lemma_split_nonempty(bytes, NEWLINE);
    let whole = bytes.push(NEWLINE);
    assert(whole.drop_last() =~= bytes);
    let before = text::split(bytes, NEWLINE);
    assert(text::split(whole, NEWLINE).drop_last() =~= before);
    assert(before =~= before.drop_last().push(before.last()));
}

/// Truncating a file behind its last complete line keeps exactly its complete
/// lines and leaves no partial one; a file that ends in a line end is not
/// truncated at all, so recovering twice changes nothing more.
pub proof fn recovery_keeps_the_complete_lines(bytes: Seq<u8>)
    ensures
        0 <= complete_end(bytes) <= bytes.len(),
        lines_of(bytes.take(complete_end(bytes))) == lines_of(bytes),
        is_clean(bytes.take(complete_end(bytes))),
        complete_end(bytes.take(complete_end(bytes))) == complete_end(bytes),
        is_clean(bytes) ==> complete_end(bytes) == bytes.len(),
    decreases bytes.len(),
{
    lemma_partial_fits(bytes);
    let kept = bytes.take(complete_end(bytes));
    let tail = partial_line(bytes);
    lemma_append_tail(kept, tail);
    lemma_partial_fits(kept);
}

/// Appending framed lines to a recovered file adds exactly those lines, in
/// order, so a line is read back as it was written.
pub proof fn appended_lines_are_read_back(bytes: Seq<u8>, lines: Seq<Seq<u8>>)
    requires
        is_clean(bytes),
        forall|i: int| 0 <= i < lines.len() ==> !(#[trigger] lines[i]).contains(NEWLINE),
    ensures
        lines_of(bytes + framed(lines)) == lines_of(bytes) + lines,
        is_clean(bytes + framed(lines)),
    decreases lines.len(),
{
    if lines.len() == 0 {
        assert(bytes + framed(lines) =~= bytes);
        assert(lines_of(bytes) + lines =~= lines_of(bytes));
    } else {
        let init = lines.drop_last();
        assert forall|i: int| 0 <= i < init.len() implies !(#[trigger] init[i]).contains(
            NEWLINE,
        ) by {
            assert(init[i] == lines[i]);
        }
        appended_lines_are_read_back(bytes, init);
        let before = bytes + framed(init);
        let line = lines.last();
        assert(!lines[lines.len() - 1].contains(NEWLINE));
        lemma_append_tail(before, line);
        assert(partial_line(before) + line =~= line);
        lemma_append_end(before + line);
        assert(bytes + framed(lines) =~= (before + line).push(NEWLINE));
        assert((lines_of(bytes) + init).push(line) =~= lines_of(bytes) + lines);
    }
}

/// The scan of a log at startup: it is streamed, so recovery does not load the
/// log into memory.
#[derive(Clone, Copy, Debug)]
pub struct Recovery {
    scanned: u64,
    complete_end: u64,
    lines: u64,
}

/// What a recovered log needs.
#[derive(Clone, Copy, Debug, PartialEq, Eq, Structural)]
pub struct Recovered {
    /// The length the file is truncated to, when it ends in a partial line.
    pub truncate_to: Option<u64>,
    /// The next free position.
    pub next_lsn: Lsn,
}

/// What a file needs: a partial line at its end is truncated, and positions go on
/// after the complete lines.
pub open spec fn recovered(bytes: Seq<u8>) -> Recovered {
    Recovered {
        truncate_to: if is_clean(bytes) {
            None
        } else {
            Some(complete_end(bytes) as u64)
        },
        next_lsn: (lines_of(bytes).len() + 1) as u64,
    }
}

impl Recovery {
    #[verifier::type_invariant]
    spec fn counted(&self) -> bool {
        self.lines <= self.scanned
    }

    /// Whether the scan has seen exactly these bytes.
    pub closed spec fn has_seen(&self, bytes: Seq<u8>) -> bool {
        &&& self.scanned == bytes.len()
        &&& self.complete_end == complete_end(bytes)
        &&& self.lines == lines_of(bytes).len()
    }

    /// How many bytes were scanned.
    pub closed spec fn seen(&self) -> u64 {
        self.scanned
    }

    /// A scan that has seen nothing.
    pub fn new() -> (r: Recovery)
        ensures
            r.has_seen(Seq::empty()),
            r.seen() == 0,
    {
        let recovery = Recovery { scanned: 0, complete_end: 0, lines: 0 };
        proof {
            assert(text::split(Seq::<u8>::empty(), NEWLINE) =~= seq![Seq::<u8>::empty()]);
        }
        recovery
    }

    /// Scans the next bytes of the file.
    pub fn feed(&mut self, chunk: &[u8])
        requires
            old(self).seen() + chunk@.len() < u64::MAX,
        ensures
            final(self).seen() == old(self).seen() + chunk@.len(),
            forall|bytes: Seq<u8>| #[trigger]
                old(self).has_seen(bytes) ==> final(self).has_seen(bytes + chunk@),
    {
        let ghost start = *self;
        let mut i: usize = 0;
        proof {
            use_type_invariant(&*self);
            assert forall|bytes: Seq<u8>| #[trigger] start.has_seen(bytes) implies self.has_seen(
                bytes + chunk@.take(0),
            ) by {
                assert(bytes + chunk@.take(0) =~= bytes);
            }
        }
        while i < chunk.len()
            invariant
                i <= chunk@.len(),
                start == *old(self),
                start.seen() + chunk@.len() < u64::MAX,
                self.scanned == start.scanned + i,
                self.lines <= self.scanned,
                forall|bytes: Seq<u8>| #[trigger]
                    start.has_seen(bytes) ==> self.has_seen(bytes + chunk@.take(i as int)),
            decreases chunk@.len() - i,
        {
            let ghost before = *self;
            let byte: u8 = chunk[i];
            self.scanned = self.scanned + 1;
            if byte == NEWLINE {
                self.complete_end = self.scanned;
                self.lines = self.lines + 1;
            }
            i = i + 1;
            proof {
                assert forall|bytes: Seq<u8>| #[trigger]
                    start.has_seen(bytes) implies self.has_seen(
                    bytes + chunk@.take(i as int),
                ) by {
                    let seen = bytes + chunk@.take(i - 1);
                    assert(before.has_seen(seen));
                    assert(bytes + chunk@.take(i as int) =~= seen.push(byte));
                    lemma_partial_fits(seen);
                    lemma_lines_fit(seen);
                    text::lemma_split_nonempty(seen, NEWLINE);
                    if byte == NEWLINE {
                        lemma_append_end(seen);
                    } else {
                        let tail = seq![byte];
                        assert(!tail.contains(NEWLINE));
                        lemma_append_tail(seen, tail);
                        assert(seen + tail =~= seen.push(byte));
                    }
                }
            }
        }
        proof {
            assert(chunk@.take(i as int) =~= chunk@);
        }
    }

    /// What the scanned file needs: a partial line left by a crash is
    /// truncated, and positions go on after the complete lines.
    pub fn finish(&self) -> (r: Recovered)
        requires
            self.seen() < u64::MAX,
        ensures
            forall|bytes: Seq<u8>| #[trigger]
                self.has_seen(bytes) ==> r == (Recovered {
                    truncate_to: if is_clean(bytes) {
                        None
                    } else {
                        Some(complete_end(bytes) as u64)
                    },
                    next_lsn: (lines_of(bytes).len() + 1) as u64,
                }),
            forall|bytes: Seq<u8>| #[trigger] self.has_seen(bytes) ==> r == recovered(bytes),
    {
        proof {
            use_type_invariant(self);
            assert forall|bytes: Seq<u8>| #[trigger] self.has_seen(bytes) implies (is_clean(bytes)
                <==> self.complete_end >= self.scanned) by {
                lemma_partial_fits(bytes);
            }
        }
        Recovered {
            truncate_to: if self.complete_end < self.scanned {
                Some(self.complete_end)
            } else {
                None
            },
            next_lsn: self.lines + 1,
        }
    }
}

/// A file has no more lines than bytes.
proof fn lemma_lines_fit(bytes: Seq<u8>)
    ensures
        lines_of(bytes).len() <= bytes.len(),
    decreases bytes.len(),
{
    text::lemma_split_nonempty(bytes, NEWLINE);
    if bytes.len() > 0 {
        text::lemma_split_nonempty(bytes.drop_last(), NEWLINE);
        lemma_lines_fit(bytes.drop_last());
    }
}

/// Recovers a whole file: where it is truncated, and the next free position.
pub fn recover(bytes: &[u8]) -> (r: Recovered)
    requires
        bytes@.len() < u64::MAX,
    ensures
        r.truncate_to == if is_clean(bytes@) {
            None
        } else {
            Some(complete_end(bytes@) as u64)
        },
        r.next_lsn == lines_of(bytes@).len() + 1,
        r == recovered(bytes@),
{
    let mut recovery = Recovery::new();
    recovery.feed(bytes);
    proof {
        assert(Seq::<u8>::empty() + bytes@ =~= bytes@);
        assert(recovery.has_seen(bytes@));
        lemma_lines_fit(bytes@);
    }
    recovery.finish()
}

/// A batch that is ready to be appended.
pub struct Commit {
    /// The bytes to append: every accepted line with its end.
    pub buffer: Vec<u8>,
    /// The position of each event of the batch; `None` for an event that could
    /// not be encoded, which is not appended.
    pub positions: Vec<Option<Lsn>>,
}

/// The bytes of an encoded event, if it could be encoded.
pub open spec fn opt_bytes(line: Option<Vec<u8>>) -> Option<Seq<u8>> {
    match line {
        Some(line) => Some(line@),
        None => None,
    }
}

/// The lines that could be encoded, in order.
pub open spec fn accepted(lines: Seq<Option<Vec<u8>>>) -> Seq<Seq<u8>>
    decreases lines.len(),
{
    if lines.len() == 0 {
        Seq::empty()
    } else {
        match opt_bytes(lines.last()) {
            Some(line) => accepted(lines.drop_last()).push(line),
            None => accepted(lines.drop_last()),
        }
    }
}

/// Whether the writer may add another event to a batch of this size.
pub fn batch_has_room(len: usize) -> (r: bool)
    ensures
        r == (len < MAX_BATCH_EVENTS),
{
    len < MAX_BATCH_EVENTS
}

/// The writer of a log: the next free position, and whether a failed append has
/// stopped it.
#[derive(Debug)]
pub struct Writer {
    next_lsn: Lsn,
    stopped: bool,
}

/// Whether a commit is that of a batch whose first free position is `next`: the
/// accepted lines, and the position of each event.
pub open spec fn commits(next: u64, lines: Seq<Option<Vec<u8>>>, commit: Commit) -> bool {
    &&& commit.buffer@ == framed(accepted(lines))
    &&& commit.positions@.len() == lines.len()
    &&& forall|i: int|
        0 <= i < lines.len() ==> #[trigger] commit.positions@[i] == if lines[i] is Some {
            Some((next + accepted(lines.take(i)).len()) as u64)
        } else {
            None
        }
}

impl Writer {
    /// The next free position.
    pub closed spec fn next(&self) -> Lsn {
        self.next_lsn
    }

    /// Whether a failed append has stopped the writer.
    pub closed spec fn is_stopped(&self) -> bool {
        self.stopped
    }

    /// A writer that goes on at `next_lsn`.
    pub fn new(next_lsn: Lsn) -> (r: Writer)
        ensures
            r.next() == next_lsn,
            !r.is_stopped(),
    {
        Writer { next_lsn, stopped: false }
    }

    /// Frames a batch of encoded events: each accepted line gets the next
    /// position, in order. A stopped writer accepts nothing.
    pub fn commit(&mut self, lines: &Vec<Option<Vec<u8>>>) -> (r: Option<Commit>)
        requires
            old(self).next() + lines@.len() <= u64::MAX,
        ensures
            final(self).is_stopped() == old(self).is_stopped(),
            match r {
                None => old(self).is_stopped() && final(self).next() == old(self).next(),
                Some(commit) => {
                    &&& !old(self).is_stopped()
                    &&& final(self).next() == old(self).next() + accepted(lines@).len()
                    &&& commit.buffer@ == framed(accepted(lines@))
                    &&& commit.positions@.len() == lines@.len()
                    &&& forall|i: int|
                        0 <= i < lines@.len() ==> #[trigger] commit.positions@[i]
                            == if lines@[i] is Some {
                            Some(
                                (old(self).next() + accepted(lines@.take(i)).len()) as u64,
                            )
                        } else {
                            None
                        }
                },
            },
            r is Some ==> commits(old(self).next(), lines@, r->0),
    {
        if self.stopped {
            return None;
        }
        let ghost start = self.next_lsn;
        let mut buffer: Vec<u8> = Vec::new();
        let mut positions: Vec<Option<Lsn>> = Vec::new();
        let mut i: usize = 0;
        proof {
            assert(lines@.take(0) =~= Seq::<Option<Vec<u8>>>::empty());
        }
        while i < lines.len()
            invariant
                i <= lines@.len(),
                start == old(self).next(),
                start + lines@.len() <= u64::MAX,
                !self.stopped,
                !old(self).is_stopped(),
                accepted(lines@.take(i as int)).len() <= i,
                self.next_lsn == start + accepted(lines@.take(i as int)).len(),
                buffer@ == framed(accepted(lines@.take(i as int))),
                positions@.len() == i,
                forall|k: int|
                    0 <= k < i ==> #[trigger] positions@[k] == if lines@[k] is Some {
                        Some((start + accepted(lines@.take(k)).len()) as u64)
                    } else {
                        None
                    },
            decreases lines@.len() - i,
        {
            let ghost before = accepted(lines@.take(i as int));
            proof {
                assert(lines@.take(i + 1).drop_last() =~= lines@.take(i as int));
                assert(lines@.take(i + 1).last() == lines@[i as int]);
            }
            match &lines[i] {
                Some(line) => {
                    append(&mut buffer, line);
                    buffer.push(NEWLINE);
                    positions.push(Some(self.next_lsn));
                    self.next_lsn = self.next_lsn + 1;
                    proof {
                        assert(before.push(line@).drop_last() =~= before);
                        assert(buffer@ =~= (framed(before) + line@).push(NEWLINE));
                    }
                },
                None => {
                    positions.push(None);
                },
            }
            i = i + 1;
        }
        proof {
            assert(lines@.take(i as int) =~= lines@);
        }
        Some(Commit { buffer, positions })
    }

    /// Takes the outcome of an append into account: a failed write or sync
    /// stops the writer for good, because durability can no longer be promised.
    pub fn appended(&mut self, synced: bool)
        ensures
            final(self).next() == old(self).next(),
            final(self).is_stopped() == (old(self).is_stopped() || !synced),
    {
        if !synced {
            self.stopped = true;
        }
    }
}

fn append(data: &mut Vec<u8>, bytes: &Vec<u8>)
    ensures
        final(data)@ == old(data)@ + bytes@,
{
    data.extend_from_slice(bytes.as_slice());
    proof {
        assert(data@ =~= old(data)@ + bytes@);
    }
}

/// The position an accepted event of a batch gets is the number of its line in
/// the log it is appended to.
pub proof fn positions_are_line_numbers(
    bytes: Seq<u8>,
    lines: Seq<Option<Vec<u8>>>,
    i: int,
)
    requires
        is_clean(bytes),
        0 <= i < lines.len(),
        lines[i] is Some,
        forall|k: int|
            0 <= k < lines.len() && lines[k] is Some ==> !(#[trigger] lines[k])->0@.contains(
                NEWLINE,
            ),
    ensures
        ({
            let position = lines_of(bytes).len() + 1 + accepted(lines.take(i)).len();
            let log = lines_of(bytes + framed(accepted(lines)));
            &&& position <= log.len()
            &&& log[position - 1] == lines[i]->0@
        }),
{
    lemma_accepted_clean(lines);
    appended_lines_are_read_back(bytes, accepted(lines));
    lemma_accepted_at(lines, i);
}

proof fn lemma_accepted_clean(lines: Seq<Option<Vec<u8>>>)
    requires
        forall|k: int|
            0 <= k < lines.len() && lines[k] is Some ==> !(#[trigger] lines[k])->0@.contains(
                NEWLINE,
            ),
    ensures
        forall|i: int|
            0 <= i < accepted(lines).len() ==> !(#[trigger] accepted(lines)[i]).contains(NEWLINE),
    decreases lines.len(),
{
    if lines.len() > 0 {
        let init = lines.drop_last();
        assert forall|k: int| 0 <= k < init.len() && init[k] is Some implies !(
        #[trigger] init[k])->0@.contains(NEWLINE) by {
            assert(lines[k] == init[k]);
        }
        lemma_accepted_clean(init);
        assert forall|i: int| 0 <= i < accepted(lines).len() implies !(
        #[trigger] accepted(lines)[i]).contains(NEWLINE) by {
            if i < accepted(init).len() {
                assert(accepted(lines)[i] == accepted(init)[i]);
            } else {
                assert(lines[lines.len() - 1] is Some);
            }
        }
    }
}

proof fn lemma_accepted_at(lines: Seq<Option<Vec<u8>>>, i: int)
    requires
        0 <= i < lines.len(),
        lines[i] is Some,
    ensures
        accepted(lines.take(i)).len() < accepted(lines).len(),
        accepted(lines)[accepted(lines.take(i)).len() as int] == lines[i]->0@,
    decreases lines.len(),
{
    let init = lines.drop_last();
    if i == lines.len() - 1 {
        assert(lines.take(i) =~= init);
    } else {
        lemma_accepted_at(init, i);
        assert(init.take(i) =~= lines.take(i));
    }
}

/// What reading one line of a log gave.
pub enum LineRead {
    /// The end of the file.
    End,
    /// The bytes up to and with the next line end, or up to the end of the
    /// file.
    Bytes(Vec<u8>),
    /// Reading failed.
    Failed(String),
}

/// What a reader makes of a line.
pub enum LineStep {
    /// The line lies before the wanted position; read on.
    Skip,
    /// An entry to decode, at this position.
    Entry(Lsn, Vec<u8>),
    /// The end of the log.
    End,
    /// Reading failed; the reader is done.
    Failed(String),
}

/// A streaming reader over a log file.
///
/// It hands out entries in order, skipping the first `from - 1` lines. A
/// trailing line without a line end is treated as the end of the log so an
/// append in progress is never read half-written.
#[derive(Debug)]
pub struct LogReader {
    skip: u64,
    next_lsn: Lsn,
    done: bool,
}

/// A reader, as plain values: the lines still to skip, the position of the next
/// entry, and whether it is done.
#[verifier::ext_equal]
pub struct ReaderState {
    pub skip: u64,
    pub next_lsn: Lsn,
    pub done: bool,
}

/// The reader that starts at `from`.
pub open spec fn reader_at(from: Lsn) -> ReaderState {
    ReaderState {
        skip: if from >= 1 {
            (from - 1) as u64
        } else {
            0
        },
        next_lsn: if from >= 1 {
            from
        } else {
            1
        },
        done: false,
    }
}

impl View for LogReader {
    type V = ReaderState;

    closed spec fn view(&self) -> ReaderState {
        ReaderState { skip: self.skip, next_lsn: self.next_lsn, done: self.done }
    }
}

/// Whether bytes end in a line end.
pub open spec fn is_line(bytes: Seq<u8>) -> bool {
    bytes.len() > 0 && bytes.last() == NEWLINE
}

/// The reader after a line was decoded: the next position, or the end when the
/// line was not an event.
pub open spec fn after_decoding(state: ReaderState, decoded: bool) -> ReaderState {
    if decoded {
        ReaderState {
            next_lsn: if state.next_lsn == u64::MAX {
                state.next_lsn
            } else {
                (state.next_lsn + 1) as u64
            },
            ..state
        }
    } else {
        ReaderState { done: true, ..state }
    }
}

/// Whether a step, and the reader that it leaves, are the answer to a line that was
/// read.
pub open spec fn read_answer(
    before: ReaderState,
    read: LineRead,
    after: ReaderState,
    step: LineStep,
) -> bool {
    if before.done {
        step is End && after == before
    } else {
        match read {
            LineRead::Failed(error) => {
                &&& step == LineStep::Failed(error)
                &&& after == (ReaderState { done: true, ..before })
            },
            LineRead::End => step is End && after == (ReaderState { done: true, ..before }),
            LineRead::Bytes(bytes) => if before.skip > 0 {
                &&& step is Skip
                &&& after == (ReaderState { skip: (before.skip - 1) as u64, ..before })
            } else if is_line(bytes@) {
                &&& step is Entry
                &&& step->Entry_0 == before.next_lsn
                &&& step->Entry_1@ == bytes@.drop_last()
                &&& after == before
            } else {
                step is End && after == (ReaderState { done: true, ..before })
            },
        }
    }
}

impl LogReader {
    /// A reader positioned at `from`.
    pub fn new(from: Lsn) -> (r: LogReader)
        ensures
            r@ == reader_at(from),
    {
        if from >= 1 {
            LogReader { skip: from - 1, next_lsn: from, done: false }
        } else {
            LogReader { skip: 0, next_lsn: 1, done: false }
        }
    }

    /// Takes the outcome of reading one line into account.
    pub fn on_read(&mut self, read: LineRead) -> (r: LineStep)
        ensures
            if old(self)@.done {
                r is End && final(self)@ == old(self)@
            } else {
                match read {
                    LineRead::Failed(error) => {
                        &&& r == LineStep::Failed(error)
                        &&& final(self)@ == (ReaderState { done: true, ..old(self)@ })
                    },
                    LineRead::End => {
                        &&& r is End
                        &&& final(self)@ == (ReaderState { done: true, ..old(self)@ })
                    },
                    LineRead::Bytes(bytes) => if old(self)@.skip > 0 {
                        &&& r is Skip
                        &&& final(self)@ == (ReaderState {
                            skip: (old(self)@.skip - 1) as u64,
                            ..old(self)@
                        })
                    } else if is_line(bytes@) {
                        &&& r is Entry
                        &&& r->Entry_0 == old(self)@.next_lsn
                        &&& r->Entry_1@ == bytes@.drop_last()
                        &&& final(self)@ == old(self)@
                    } else {
                        &&& r is End
                        &&& final(self)@ == (ReaderState { done: true, ..old(self)@ })
                    },
                }
            },
            read_answer(old(self)@, read, final(self)@, r),
    {
        if self.done {
            return LineStep::End;
        }
        match read {
            LineRead::Failed(error) => {
                self.done = true;
                LineStep::Failed(error)
            },
            LineRead::End => {
                self.done = true;
                LineStep::End
            },
            LineRead::Bytes(bytes) => {
                if self.skip > 0 {
                    self.skip = self.skip - 1;
                    return LineStep::Skip;
                }
                let mut bytes = bytes;
                if bytes.len() == 0 || bytes[bytes.len() - 1] != NEWLINE {
                    self.done = true;
                    return LineStep::End;
                }
                let _ = bytes.pop();
                LineStep::Entry(self.next_lsn, bytes)
            },
        }
    }

    /// Takes into account whether the last entry could be decoded: a line that
    /// is no event ends the reading.
    pub fn on_decoded(&mut self, decoded: bool)
        ensures
            final(self)@ == after_decoding(old(self)@, decoded),
    {
        if decoded {
            if self.next_lsn < u64::MAX {
                self.next_lsn = self.next_lsn + 1;
            }
        } else {
            self.done = true;
        }
    }
}

/// The reader that started at `from` after `count` lines were delivered and
/// those it handed out were decoded.
pub open spec fn reader_after(from: Lsn, count: nat) -> ReaderState
    decreases count,
{
    if count == 0 {
        reader_at(from)
    } else {
        let before = reader_after(from, (count - 1) as nat);
        if before.skip > 0 {
            ReaderState { skip: (before.skip - 1) as u64, ..before }
        } else {
            after_decoding(before, true)
        }
    }
}

/// The entry handed out for a line has the number of that line as its position,
/// and no line from the wanted position on is skipped.
pub proof fn entries_carry_their_line_numbers(from: Lsn, count: nat)
    requires
        count < u64::MAX,
    ensures
        !reader_after(from, count).done,
        from >= 1 && count < from - 1 ==> reader_after(from, count).skip == from - 1 - count,
        count >= from - 1 ==> reader_after(from, count).skip == 0 && reader_after(
            from,
            count,
        ).next_lsn == count + 1,
        count < from - 1 ==> reader_after(from, count).next_lsn == from,
    decreases count,
{
    if count > 0 {
        entries_carry_their_line_numbers(from, (count - 1) as nat);
    }
}

} // verus!
