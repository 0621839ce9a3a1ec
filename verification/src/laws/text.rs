//! What the readings and orders of text promise.

use crate::order;
use crate::scan;
use crate::text;
use vstd::prelude::*;

verus! {

/// Lowering a text changes its upper-case ASCII letters to the lower-case ones and
/// nothing else.
pub proof fn lowering_changes_ascii_letters_only(text: Seq<char>, i: int)
    requires
        0 <= i < text.len(),
    ensures
        text::lowered(text).len() == text.len(),
        'A' <= text[i] <= 'Z' ==> text::lowered(text)[i] as u32 == text[i] as u32 + 32,
        !('A' <= text[i] <= 'Z') ==> text::lowered(text)[i] == text[i],
{
}

/// The pieces of a split hold no separator and make up the text again; a list of
/// such pieces is what its text splits into.
pub proof fn splitting_and_joining_undo_each_other(
    text: Seq<char>,
    pieces: Seq<Seq<char>>,
    separator: char,
)
    ensures
        text::split(text, separator).len() >= 1,
        text::join(text::split(text, separator), separator) == text,
        forall|i: int|
            0 <= i < text::split(text, separator).len() ==> !(#[trigger] text::split(
                text,
                separator,
            )[i]).contains(separator),
        pieces.len() >= 1 && (forall|i: int|
            0 <= i < pieces.len() ==> !(#[trigger] pieces[i]).contains(separator)) ==> text::split(
            text::join(pieces, separator),
            separator,
        ) == pieces,
{
    text::lemma_split_nonempty(text, separator);
    text::lemma_join_split(text, separator);
    text::lemma_split_pieces(text, separator);
    if pieces.len() >= 1 && (forall|i: int|
        0 <= i < pieces.len() ==> !(#[trigger] pieces[i]).contains(separator)) {
        text::lemma_split_join(pieces, separator);
    }
}

/// Joining writes the separator between the pieces and nowhere else.
pub proof fn joining_writes_the_separator_between(
    pieces: Seq<Seq<char>>,
    piece: Seq<char>,
    separator: char,
)
    ensures
        text::join(Seq::empty(), separator) == Seq::<char>::empty(),
        text::join(seq![piece], separator) == piece,
        pieces.len() >= 1 ==> text::join(pieces.push(piece), separator) == text::join(
            pieces,
            separator,
        ) + seq![separator] + piece,
{
    assert(pieces.push(piece).drop_last() =~= pieces);
    assert(text::join(pieces, separator).push(separator) =~= text::join(pieces, separator) + seq![
        separator,
    ]);
}

/// The first and the last place of a character are where it stands, with none
/// before and none after.
pub proof fn characters_are_found_where_they_stand(text: Seq<char>, wanted: char)
    ensures
        ({
            let first = text::first_index(text, wanted);
            &&& 0 <= first <= text.len()
            &&& first < text.len() ==> text[first] == wanted
            &&& forall|i: int| 0 <= i < first ==> (#[trigger] text[i]) != wanted
        }),
        ({
            let last = scan::last_index(text, wanted);
            &&& -1 <= last < text.len()
            &&& last >= 0 ==> text[last] == wanted
            &&& forall|i: int| last < i < text.len() ==> (#[trigger] text[i]) != wanted
        }),
    decreases text.len(),
{
    text::lemma_first_index(text, wanted);
    lemma_first(text, wanted);
    lemma_last(text, wanted);
}

proof fn lemma_first(text: Seq<char>, wanted: char)
    ensures
        0 <= text::first_index(text, wanted) <= text.len(),
        text::first_index(text, wanted) < text.len() ==> text[text::first_index(text, wanted)]
            == wanted,
        forall|i: int|
            0 <= i < text::first_index(text, wanted) ==> (#[trigger] text[i]) != wanted,
    decreases text.len(),
{
    if text.len() > 0 && text[0] != wanted {
        let rest = text.skip(1);
        lemma_first(rest, wanted);
        assert forall|i: int| 0 <= i < text::first_index(text, wanted) implies (#[trigger] text[i])
            != wanted by {
            if i > 0 {
                assert(rest[i - 1] == text[i]);
            }
        }
    }
}

proof fn lemma_last(text: Seq<char>, wanted: char)
    ensures
        -1 <= scan::last_index(text, wanted) < text.len(),
        scan::last_index(text, wanted) >= 0 ==> text[scan::last_index(text, wanted)] == wanted,
        forall|i: int|
            scan::last_index(text, wanted) < i < text.len() ==> (#[trigger] text[i]) != wanted,
    decreases text.len(),
{
    if text.len() > 0 && text.last() != wanted {
        let init = text.drop_last();
        lemma_last(init, wanted);
        assert forall|i: int| scan::last_index(text, wanted) < i < text.len() implies (
        #[trigger] text[i]) != wanted by {
            if i < init.len() {
                assert(init[i] == text[i]);
            }
        }
    }
}

/// A text begins with a prefix when something can be put after the prefix to make
/// the text.
pub proof fn a_prefix_can_be_completed(text: Seq<char>, prefix: Seq<char>, rest: Seq<char>)
    ensures
        text::has_prefix(prefix + rest, prefix),
        text::has_prefix(text, prefix) ==> text == prefix + text.skip(prefix.len() as int),
{
    assert((prefix + rest).take(prefix.len() as int) =~= prefix);
    if text::has_prefix(text, prefix) {
        assert(text =~= text.take(prefix.len() as int) + text.skip(prefix.len() as int));
    }
}

/// A number is written in digits without leading zeros, and the digits read back as
/// the number; so they do behind a plus sign, up to the largest number asked for.
pub proof fn numbers_read_back(n: nat, max: nat)
    ensures
        text::decimal(n).len() >= 1,
        forall|i: int|
            0 <= i < text::decimal(n).len() ==> '0' <= (#[trigger] text::decimal(n)[i]) <= '9',
        n > 0 ==> text::decimal(n)[0] != '0',
        scan::unsigned(text::decimal(n), max) == if n <= max {
            Some(n)
        } else {
            None
        },
        scan::unsigned(seq!['+'] + text::decimal(n), max) == if n <= max {
            Some(n)
        } else {
            None
        },
    decreases n,
{
    let digits = text::decimal(n);
    text::lemma_decimal_value(n);
    lemma_leading(n);
    assert(text::all_digits(digits));
    assert(text::is_digit(digits[0]));
    assert forall|i: int| 0 <= i < digits.len() implies '0' <= (#[trigger] digits[i]) <= '9' by {
        assert(text::is_digit(digits[i]));
    }
    assert((seq!['+'] + digits).skip(1) =~= digits);
}

proof fn lemma_leading(n: nat)
    ensures
        text::decimal(n).len() >= 1,
        n > 0 ==> text::decimal(n)[0] != '0',
    decreases n,
{
    if n >= 10 {
        lemma_leading(n / 10);
        assert(text::decimal(n)[0] == text::decimal(n / 10)[0]);
    }
}

/// A text that holds anything but digits behind its sign, or nothing, is no number.
pub proof fn only_digits_are_numbers(text: Seq<char>, max: nat, i: int)
    ensures
        scan::unsigned(Seq::empty(), max) is None,
        scan::unsigned(seq!['+'], max) is None,
        0 <= i < text.len() && !('0' <= text[i] <= '9') && (i > 0 || text[i] != '+')
            ==> scan::unsigned(text, max) is None,
{
    assert(seq!['+'].skip(1) =~= Seq::<char>::empty());
    if 0 <= i < text.len() && !('0' <= text[i] <= '9') && (i > 0 || text[i] != '+') {
        let digits = scan::number_digits(text);
        if text[0] == '+' {
            assert(digits[i - 1] == text[i]);
            assert(!text::is_digit(digits[i - 1]));
        } else {
            assert(!text::is_digit(digits[i]));
        }
    }
}

/// Leading zeros do not change what digits write, and each further digit counts ten
/// of those before it.
pub proof fn digits_count_by_ten(text: Seq<char>, d: nat)
    requires
        d < 10,
    ensures
        text::digits_value(Seq::empty()) == 0,
        text::digits_value(text.push(text::digit_char(d))) == text::digits_value(text) * 10 + d,
        text::digit_char(d) as u32 == '0' as u32 + d,
{
    assert(text.push(text::digit_char(d)).drop_last() =~= text);
}

/// The usual blanks and line ends are white space; letters, digits and signs are
/// not.
pub proof fn blanks_are_white_space(c: char)
    ensures
        scan::is_space(' ') && scan::is_space('\t') && scan::is_space('\n') && scan::is_space('\r'),
        '!' <= c <= '~' ==> !scan::is_space(c),
        scan::is_space(c) <==> seq![
            0x09u32, 0x0Au32, 0x0Bu32, 0x0Cu32, 0x0Du32, 0x20u32, 0x85u32, 0xA0u32, 0x1680u32,
            0x2000u32, 0x2001u32, 0x2002u32, 0x2003u32, 0x2004u32, 0x2005u32, 0x2006u32, 0x2007u32,
            0x2008u32, 0x2009u32, 0x200Au32, 0x2028u32, 0x2029u32, 0x202Fu32, 0x205Fu32, 0x3000u32,
        ].contains(c as u32),
{
    let all = seq![
        0x09u32, 0x0Au32, 0x0Bu32, 0x0Cu32, 0x0Du32, 0x20u32, 0x85u32, 0xA0u32, 0x1680u32,
        0x2000u32, 0x2001u32, 0x2002u32, 0x2003u32, 0x2004u32, 0x2005u32, 0x2006u32, 0x2007u32,
        0x2008u32, 0x2009u32, 0x200Au32, 0x2028u32, 0x2029u32, 0x202Fu32, 0x205Fu32, 0x3000u32,
    ];
    let n = c as u32;
    if 9 <= n <= 13 {
        assert(all[n - 9] == n);
    } else if 0x2000 <= n <= 0x200A {
        assert(all[n - 0x2000 + 9] == n);
    } else {
        assert(all[5] == 0x20 && all[6] == 0x85 && all[7] == 0xA0 && all[8] == 0x1680 && all[20]
            == 0x2028 && all[21] == 0x2029 && all[22] == 0x202F && all[23] == 0x205F && all[24]
            == 0x3000);
    }
}

/// Trimming takes away white space at the ends, all of it and nothing else.
pub proof fn trimming_takes_white_space_only(text: Seq<char>)
    ensures
        ({
            let kept = scan::trimmed_end(text);
            &&& kept.is_prefix_of(text)
            &&& kept.len() > 0 ==> !scan::is_space(kept.last())
            &&& forall|i: int|
                kept.len() <= i < text.len() ==> scan::is_space(#[trigger] text[i])
        }),
        ({
            let kept = scan::trimmed_start(text);
            let cut = text.len() - kept.len();
            &&& 0 <= cut
            &&& kept == text.skip(cut)
            &&& kept.len() > 0 ==> !scan::is_space(kept[0])
            &&& forall|i: int| 0 <= i < cut ==> scan::is_space(#[trigger] text[i])
        }),
        scan::trimmed(text) == scan::trimmed_end(scan::trimmed_start(text)),
    decreases text.len(),
{
    lemma_trimmed_end(text);
    lemma_trimmed_start(text);
}

proof fn lemma_trimmed_end(text: Seq<char>)
    ensures
        scan::trimmed_end(text).is_prefix_of(text),
        scan::trimmed_end(text).len() > 0 ==> !scan::is_space(scan::trimmed_end(text).last()),
        forall|i: int|
            scan::trimmed_end(text).len() <= i < text.len() ==> scan::is_space(#[trigger] text[i]),
    decreases text.len(),
{
    if text.len() > 0 && scan::is_space(text.last()) {
        let init = text.drop_last();
        lemma_trimmed_end(init);
        let kept = scan::trimmed_end(text);
        assert(kept =~= text.subrange(0, kept.len() as int));
        assert forall|i: int| kept.len() <= i < text.len() implies scan::is_space(
            #[trigger] text[i],
        ) by {
            if i < init.len() {
                assert(init[i] == text[i]);
            }
        }
    } else {
        assert(text =~= text.subrange(0, text.len() as int));
    }
}

proof fn lemma_trimmed_start(text: Seq<char>)
    ensures
        scan::trimmed_start(text).len() <= text.len(),
        scan::trimmed_start(text) == text.skip(text.len() - scan::trimmed_start(text).len()),
        scan::trimmed_start(text).len() > 0 ==> !scan::is_space(scan::trimmed_start(text)[0]),
        forall|i: int|
            0 <= i < text.len() - scan::trimmed_start(text).len() ==> scan::is_space(
                #[trigger] text[i],
            ),
    decreases text.len(),
{
    if text.len() > 0 && scan::is_space(text[0]) {
        let rest = text.skip(1);
        lemma_trimmed_start(rest);
        let kept = scan::trimmed_start(text);
        assert(kept =~= text.skip(text.len() - kept.len()));
        assert forall|i: int| 0 <= i < text.len() - kept.len() implies scan::is_space(
            #[trigger] text[i],
        ) by {
            if i > 0 {
                assert(rest[i - 1] == text[i]);
            }
        }
    } else {
        assert(text =~= text.skip(0));
    }
}

/// Words are the runs between white space: a text without any is one word, none are
/// in the empty text, and white space parts the words before it from those after.
pub proof fn white_space_parts_words(before: Seq<char>, blank: char, after: Seq<char>)
    requires
        scan::is_space(blank),
    ensures
        scan::words(Seq::empty()) == Seq::<Seq<char>>::empty(),
        after.len() > 0 && (forall|i: int|
            0 <= i < after.len() ==> !scan::is_space(#[trigger] after[i])) ==> scan::words(after)
            == seq![after],
        scan::words(before.push(blank) + after) == scan::words(before) + scan::words(after),
{
    lemma_parted(before, blank, after);
    if after.len() > 0 && (forall|i: int|
        0 <= i < after.len() ==> !scan::is_space(#[trigger] after[i])) {
        lemma_one_word(after);
        assert(Seq::<Seq<char>>::empty().push(after) =~= seq![after]);
    }
}

proof fn lemma_one_word(text: Seq<char>)
    requires
        forall|i: int| 0 <= i < text.len() ==> !scan::is_space(#[trigger] text[i]),
    ensures
        scan::word_split(text) == (Seq::<Seq<char>>::empty(), text),
    decreases text.len(),
{
    if text.len() > 0 {
        let init = text.drop_last();
        assert forall|i: int| 0 <= i < init.len() implies !scan::is_space(#[trigger] init[i]) by {
            assert(init[i] == text[i]);
        }
        lemma_one_word(init);
        assert(!scan::is_space(text[text.len() - 1]));
        assert(init.push(text.last()) =~= text);
    } else {
        assert(text =~= Seq::<char>::empty());
    }
}

proof fn lemma_parted(before: Seq<char>, blank: char, after: Seq<char>)
    requires
        scan::is_space(blank),
    ensures
        scan::word_split(before.push(blank) + after) == (
            scan::words(before) + scan::word_split(after).0,
            scan::word_split(after).1,
        ),
        scan::words(before.push(blank) + after) == scan::words(before) + scan::words(after),
    decreases after.len(),
{
    let whole = before.push(blank) + after;
    if after.len() == 0 {
        assert(whole =~= before.push(blank));
        assert(before.push(blank).drop_last() =~= before);
        assert(scan::words(before) + Seq::<Seq<char>>::empty() =~= scan::words(before));
    } else {
        let shorter = after.drop_last();
        lemma_parted(before, blank, shorter);
        assert(whole.drop_last() =~= before.push(blank) + shorter);
        assert(whole.last() == after.last());
        let (words, current) = scan::word_split(shorter);
        assert((scan::words(before) + words).push(current) =~= scan::words(before) + words.push(
            current,
        ));
        let (done, rest) = scan::word_split(after);
        assert((scan::words(before) + done).push(rest) =~= scan::words(before) + done.push(rest));
    }
}

/// In dictionary order the first character that differs decides, and a text comes
/// before any that goes on after it. Of two texts that differ one comes first, and
/// never both.
pub proof fn the_first_difference_decides(
    front: Seq<char>,
    a: Seq<char>,
    b: Seq<char>,
)
    ensures
        a.len() > 0 && b.len() > 0 && a[0] != b[0] ==> (order::text_before(front + a, front + b)
            <==> a[0] < b[0]),
        a.len() == 0 && b.len() > 0 ==> order::text_before(front + a, front + b),
        b.len() == 0 ==> !order::text_before(front + a, front + b),
        a != b ==> (order::text_before(a, b) <==> !order::text_before(b, a)),
        !order::text_before(a, a),
    decreases front.len(),
{
    order::lemma_text_total(a, b);
    order::lemma_text_total(a, a);
    if front.len() == 0 {
        assert(front + a =~= a);
        assert(front + b =~= b);
    } else {
        let rest = front.skip(1);
        assert((front + a).skip(1) =~= rest + a);
        assert((front + b).skip(1) =~= rest + b);
        the_first_difference_decides(rest, a, b);
    }
}

/// Component lists are ordered by their first difference too.
pub proof fn the_first_different_component_decides(
    front: Seq<Seq<char>>,
    a: Seq<Seq<char>>,
    b: Seq<Seq<char>>,
)
    ensures
        a.len() > 0 && b.len() > 0 && a[0] != b[0] ==> (order::path_before(front + a, front + b)
            <==> order::text_before(a[0], b[0])),
        a.len() == 0 && b.len() > 0 ==> order::path_before(front + a, front + b),
        b.len() == 0 ==> !order::path_before(front + a, front + b),
    decreases front.len(),
{
    if front.len() == 0 {
        assert(front + a =~= a);
        assert(front + b =~= b);
    } else {
        let rest = front.skip(1);
        assert((front + a).skip(1) =~= rest + a);
        assert((front + b).skip(1) =~= rest + b);
        the_first_different_component_decides(rest, a, b);
    }
}

} // verus!
