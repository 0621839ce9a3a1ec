//! What the log promises.

use crate::log::{self, Commit, LineRead, LineStep, ReaderState};
use crate::text;
use vstd::prelude::*;

verus! {

/// A line of a log ends at a byte ten, and the lines of a batch stand in order, one
/// behind the other.
pub proof fn each_line_has_its_end(lines: Seq<Seq<u8>>, line: Seq<u8>, bytes: Seq<u8>)
    ensures
        log::framed(Seq::empty()) == Seq::<u8>::empty(),
        log::framed(lines.push(line)) == log::framed(lines) + line + seq![10u8],
        log::is_line(line + seq![10u8]),
        log::is_line(bytes) ==> bytes.last() == 10,
{
    assert(lines.push(line).drop_last() =~= lines);
}

/// A file is its complete lines and what a cut append left behind them: recovery
/// keeps the former, truncates the latter, and nothing else.
pub proof fn a_file_is_its_lines_and_a_rest(lines: Seq<Seq<u8>>, rest: Seq<u8>)
    requires
        forall|i: int| 0 <= i < lines.len() ==> !(#[trigger] lines[i]).contains(10u8),
        !rest.contains(10u8),
    ensures
        log::lines_of(log::framed(lines) + rest) == lines,
        log::partial_line(log::framed(lines) + rest) == rest,
        log::complete_end(log::framed(lines) + rest) == log::framed(lines).len(),
        log::is_clean(log::framed(lines) + rest) <==> rest.len() == 0,
    decreases lines.len(),
{
    let bytes = log::framed(lines) + rest;
    if lines.len() == 0 {
        assert(bytes =~= rest);
        text::lemma_split_single(rest, 10u8);
        assert(text::split(bytes, 10u8) =~= seq![rest]);
        assert(log::lines_of(bytes) =~= lines);
    } else {
        let init = lines.drop_last();
        let head = log::framed(init) + lines.last();
        a_file_is_its_lines_and_a_rest(init, lines.last());
        assert(bytes =~= head.push(10u8) + rest);
        text::lemma_split_tail(head, 10u8, rest);
        text::lemma_split_nonempty(head, 10u8);
        assert(text::split(head, 10u8) =~= log::lines_of(head).push(log::partial_line(head)));
        assert(log::lines_of(bytes) =~= text::split(head, 10u8));
        assert(lines =~= init.push(lines.last()));
    }
}

/// Of a batch the events that could be encoded are appended, each of them, in order.
pub proof fn every_encoded_event_is_appended(lines: Seq<Option<Vec<u8>>>, line: Vec<u8>)
    ensures
        log::accepted(Seq::empty()) == Seq::<Seq<u8>>::empty(),
        log::accepted(lines.push(Some(line))) == log::accepted(lines).push(line@),
        log::accepted(lines.push(None)) == log::accepted(lines),
{
    assert(lines.push(Some(line)).drop_last() =~= lines);
    assert(lines.push(None).drop_last() =~= lines);
}

/// A reader starts at the wanted position, skipping what lies before it; the first
/// position is one. An entry that was read moves it on by one, and a line that is no
/// event ends it.
pub proof fn a_reader_counts_lines(from: u64, state: ReaderState)
    ensures
        from >= 1 ==> log::reader_at(from).skip + 1 == from && log::reader_at(from).next_lsn
            == from,
        log::reader_at(0).skip == 0 && log::reader_at(0).next_lsn == 1,
        !log::reader_at(from).done,
        state.next_lsn < u64::MAX ==> log::after_decoding(state, true).next_lsn == state.next_lsn
            + 1,
        log::after_decoding(state, true).skip == state.skip,
        log::after_decoding(state, true).done == state.done,
        log::after_decoding(state, false).done,
        log::after_decoding(state, false).next_lsn == state.next_lsn,
{
}

/// What a file needs follows from its lines and the rest behind them: the rest is cut
/// off where there is one, and the next position is one past the last line.
pub proof fn a_file_is_cut_behind_its_lines(lines: Seq<Seq<u8>>, rest: Seq<u8>)
    requires
        forall|i: int| 0 <= i < lines.len() ==> !(#[trigger] lines[i]).contains(10u8),
        !rest.contains(10u8),
        lines.len() < u64::MAX,
        log::framed(lines).len() <= u64::MAX,
    ensures
        ({
            let needed = log::recovered(log::framed(lines) + rest);
            &&& needed.next_lsn == lines.len() + 1
            &&& rest.len() == 0 ==> needed.truncate_to is None
            &&& rest.len() > 0 ==> needed.truncate_to == Some(log::framed(lines).len() as u64)
        }),
{
    a_file_is_its_lines_and_a_rest(lines, rest);
}

/// The events of a batch that could be encoded get positions in a row, from the next
/// free one on; the others get none.
pub proof fn positions_go_on_without_a_gap(
    next: u64,
    lines: Seq<Option<Vec<u8>>>,
    commit: Commit,
    i: int,
)
    requires
        log::commits(next, lines, commit),
        next + lines.len() <= u64::MAX,
        0 <= i < lines.len(),
    ensures
        commit.positions@.len() == lines.len(),
        lines[i] is None ==> commit.positions@[i] is None,
        lines[i] is Some ==> commit.positions@[i] == Some(
            (next + log::accepted(lines.take(i)).len()) as u64,
        ),
        i == 0 && lines[i] is Some ==> commit.positions@[0] == Some(next),
        i > 0 && lines[i] is Some && lines[i - 1] is Some ==> commit.positions@[i - 1] is Some
            && commit.positions@[i]->0 == commit.positions@[i - 1]->0 + 1,
        commit.buffer@ == log::framed(log::accepted(lines)),
{
    lemma_accepted_len(lines.take(i));
    assert(lines.take(0) =~= Seq::empty());
    assert(log::accepted(Seq::<Option<Vec<u8>>>::empty()).len() == 0);
    if i > 0 {
        assert(lines.take(i).drop_last() =~= lines.take(i - 1));
        assert(lines.take(i).last() == lines[i - 1]);
        lemma_accepted_len(lines.take(i - 1));
    }
}

proof fn lemma_accepted_len(lines: Seq<Option<Vec<u8>>>)
    ensures
        log::accepted(lines).len() <= lines.len(),
    decreases lines.len(),
{
    if lines.len() > 0 {
        lemma_accepted_len(lines.drop_last());
    }
}

/// A reader skips the lines before the wanted position one by one, hands out every
/// complete line after them without its end, and ends at the end of the file, at a
/// line without an end, and at a failure.
pub proof fn a_reader_hands_out_complete_lines(
    before: ReaderState,
    read: LineRead,
    after: ReaderState,
    step: LineStep,
    line: Seq<u8>,
)
    requires
        log::read_answer(before, read, after, step),
    ensures
        before.done ==> step is End && after == before,
        !before.done && read is Failed ==> step is Failed && step->Failed_0@ == read->Failed_0@
            && after.done,
        !before.done && read is End ==> step is End && after.done,
        !before.done && read is Bytes && before.skip > 0 ==> step is Skip && after.skip + 1
            == before.skip && after.next_lsn == before.next_lsn && !after.done,
        !before.done && read is Bytes && before.skip == 0 && read->Bytes_0@ == line + seq![10u8]
            ==> step is Entry && step->Entry_0 == before.next_lsn && step->Entry_1@ == line && after
            == before,
        !before.done && read is Bytes && before.skip == 0 && (read->Bytes_0@.len() == 0
            || read->Bytes_0@.last() != 10) ==> step is End && after.done,
{
    assert((line + seq![10u8]).drop_last() =~= line);
}

} // verus!
