//! Operations on text, stated over the sequence of characters a string holds.

use crate::order;
use vstd::prelude::*;

verus! {

broadcast use vstd::string::group_string_axioms;

/// `String::push`: the character is appended to the end of the string and
/// nothing else changes.
pub assume_specification[ String::push ](s: &mut String, c: char)
    ensures
        final(s)@ == old(s)@.push(c),
;

/// The form in which Rust's debug formatting writes a text: between double
/// quotes, with special characters escaped.
pub uninterp spec fn debug_quoted(text: Seq<char>) -> Seq<char>;

/// `format!` with `{:?}` on a string: the quoted and escaped text, which
/// depends on the text alone.
#[verifier::external_body]
pub(crate) fn debug_text(text: &str) -> (r: String)
    ensures
        r@ == debug_quoted(text@),
{
    format!("{text:?}")
}

/// The text that a run of bytes writes in UTF-8, with every invalid part
/// replaced.
pub uninterp spec fn lossy(bytes: Seq<u8>) -> Seq<char>;

/// `String::from_utf8_lossy`: the text of the bytes, which depends on the bytes
/// alone. Bytes that are valid UTF-8 are decoded as they stand.
#[verifier::external_body]
pub(crate) fn lossy_text(bytes: &Vec<u8>) -> (r: String)
    ensures
        r@ == lossy(bytes@),
        vstd::utf8::valid_utf8(bytes@) ==> r@ == vstd::utf8::decode_utf8(bytes@),
{
    String::from_utf8_lossy(bytes).into_owned()
}

/// The characters of each string in a list.
pub open spec fn views(strings: Seq<String>) -> Seq<Seq<char>> {
    Seq::new(strings.len(), |i: int| strings[i]@)
}

/// The characters of a string that may be absent.
pub open spec fn opt_view(text: Option<String>) -> Option<Seq<char>> {
    match text {
        Some(text) => Some(text@),
        None => None,
    }
}

/// The pieces of `text` between occurrences of `separator`, in order. A text
/// without a separator is its own only piece.
pub open spec fn split<T>(text: Seq<T>, separator: T) -> Seq<Seq<T>>
    decreases text.len(),
{
    if text.len() == 0 {
        seq![Seq::<T>::empty()]
    } else {
        let before = split(text.drop_last(), separator);
        if text.last() == separator {
            before.push(Seq::<T>::empty())
        } else {
            before.drop_last().push(before.last().push(text.last()))
        }
    }
}

/// The pieces written one after another with `separator` between them.
pub open spec fn join(pieces: Seq<Seq<char>>, separator: char) -> Seq<char>
    decreases pieces.len(),
{
    if pieces.len() == 0 {
        Seq::empty()
    } else if pieces.len() == 1 {
        pieces[0]
    } else {
        join(pieces.drop_last(), separator).push(separator) + pieces.last()
    }
}

/// The position of the first `wanted` in `text`, or the length of `text` when
/// there is none.
pub open spec fn first_index(text: Seq<char>, wanted: char) -> int
    decreases text.len(),
{
    if text.len() == 0 {
        0
    } else if text[0] == wanted {
        0
    } else {
        1 + first_index(text.skip(1), wanted)
    }
}

/// Whether `text` begins with `prefix`.
pub open spec fn has_prefix(text: Seq<char>, prefix: Seq<char>) -> bool {
    prefix.len() <= text.len() && text.take(prefix.len() as int) == prefix
}

/// Whether `c` is an ASCII decimal digit.
pub open spec fn is_digit(c: char) -> bool {
    '0' <= c && c <= '9'
}

/// Whether every character is an ASCII decimal digit.
pub open spec fn all_digits(text: Seq<char>) -> bool {
    forall|i: int| 0 <= i < text.len() ==> is_digit(#[trigger] text[i])
}

/// The number a run of decimal digits writes; the empty run writes zero.
pub open spec fn digits_value(text: Seq<char>) -> nat
    decreases text.len(),
{
    if text.len() == 0 {
        0
    } else {
        digits_value(text.drop_last()) * 10 + (text.last() as nat - '0' as nat) as nat
    }
}

/// The digit character of a number below ten.
pub open spec fn digit_char(n: nat) -> char {
    (n + '0' as nat) as char
}

/// The decimal digits of `n`, without leading zeros.
pub open spec fn decimal(n: nat) -> Seq<char>
    decreases n,
{
    if n < 10 {
        seq![digit_char(n)]
    } else {
        decimal(n / 10).push(digit_char(n % 10))
    }
}

/// The lower-case form of an ASCII letter; any other character is itself.
pub open spec fn lower(c: char) -> char {
    if 'A' <= c && c <= 'Z' {
        (c as u32 + 32) as char
    } else {
        c
    }
}

/// The text with every ASCII letter in lower case.
pub open spec fn lowered(text: Seq<char>) -> Seq<char> {
    Seq::new(text.len(), |i: int| lower(text[i]))
}

/// Splitting never yields an empty list.
pub proof fn lemma_split_nonempty<T>(text: Seq<T>, separator: T)
    ensures
        split(text, separator).len() >= 1,
    decreases text.len(),
{
    if text.len() > 0 {
        lemma_split_nonempty(text.drop_last(), separator);
    }
}

/// The pieces of a split, written again, are the text.
pub proof fn lemma_join_split(text: Seq<char>, separator: char)
    ensures
        join(split(text, separator), separator) == text,
    decreases text.len(),
{
    let pieces = split(text, separator);
    if text.len() == 0 {
        assert(join(pieces, separator) =~= text);
    } else {
        let shorter = text.drop_last();
        let before = split(shorter, separator);
        lemma_split_nonempty(shorter, separator);
        lemma_join_split(shorter, separator);
        if text.last() == separator {
            assert(pieces.drop_last() =~= before);
            assert(join(pieces, separator) =~= shorter.push(separator));
        } else {
            assert(pieces.drop_last() =~= before.drop_last());
            assert(join(pieces, separator) =~= shorter.push(text.last()));
        }
        assert(shorter.push(text.last()) =~= text);
    }
}

/// No piece of a split contains the separator.
pub proof fn lemma_split_pieces<T>(text: Seq<T>, separator: T)
    ensures
        forall|i: int|
            0 <= i < split(text, separator).len() ==> !(#[trigger] split(
                text,
                separator,
            )[i]).contains(separator),
    decreases text.len(),
{
    if text.len() > 0 {
        lemma_split_nonempty(text.drop_last(), separator);
        lemma_split_pieces(text.drop_last(), separator);
        let before = split(text.drop_last(), separator);
        let pieces = split(text, separator);
        assert forall|i: int| 0 <= i < pieces.len() implies !(#[trigger] pieces[i]).contains(
            separator,
        ) by {
            if i < pieces.len() - 1 {
                assert(pieces[i] == before[i]);
            } else if text.last() != separator {
                assert(pieces[i] == before.last().push(text.last()));
                assert(!before[before.len() - 1].contains(separator));
                let piece = before.last().push(text.last());
                if piece.contains(separator) {
                    let k = choose|k: int| 0 <= k < piece.len() && piece[k] == separator;
                    if k < before.last().len() {
                        assert(before.last()[k] == separator);
                    }
                    assert(false);
                }
            }
        }
    }
}

/// Splitting a text that ends with a separator-free tail after a separator
/// yields the pieces before it and then the tail.
pub proof fn lemma_split_tail<T>(text: Seq<T>, separator: T, tail: Seq<T>)
    requires
        !tail.contains(separator),
    ensures
        split(text.push(separator) + tail, separator) == split(text, separator).push(tail),
    decreases tail.len(),
{
    let whole = text.push(separator) + tail;
    if tail.len() == 0 {
        assert(whole == text.push(separator));
        assert(whole.drop_last() == text);
        assert(tail == Seq::<T>::empty());
    } else {
        let shorter = tail.drop_last();
        assert(!shorter.contains(separator)) by {
            if shorter.contains(separator) {
                let k = choose|k: int| 0 <= k < shorter.len() && shorter[k] == separator;
                assert(tail[k] == separator);
            }
        }
        lemma_split_tail(text, separator, shorter);
        assert(whole.drop_last() == text.push(separator) + shorter);
        assert(whole.last() == tail.last());
        assert(tail[tail.len() - 1] != separator);
        assert(shorter.push(tail.last()) == tail);
        assert(split(text, separator).push(shorter).drop_last() == split(text, separator));
    }
}

/// Splitting a text without the separator yields the text alone.
pub proof fn lemma_split_single<T>(text: Seq<T>, separator: T)
    requires
        !text.contains(separator),
    ensures
        split(text, separator) == seq![text],
    decreases text.len(),
{
    if text.len() == 0 {
        assert(text == Seq::<T>::empty());
    } else {
        let shorter = text.drop_last();
        assert(!shorter.contains(separator)) by {
            if shorter.contains(separator) {
                let k = choose|k: int| 0 <= k < shorter.len() && shorter[k] == separator;
                assert(text[k] == separator);
            }
        }
        lemma_split_single(shorter, separator);
        assert(text[text.len() - 1] != separator);
        assert(shorter.push(text.last()) == text);
        assert(seq![shorter].drop_last() == Seq::<Seq<T>>::empty());
        assert(split(text, separator) == seq![text]);
    }
}

/// Splitting what was joined gives the pieces back.
pub proof fn lemma_split_join(pieces: Seq<Seq<char>>, separator: char)
    requires
        pieces.len() >= 1,
        forall|i: int| 0 <= i < pieces.len() ==> !(#[trigger] pieces[i]).contains(separator),
    ensures
        split(join(pieces, separator), separator) == pieces,
    decreases pieces.len(),
{
    if pieces.len() == 1 {
        lemma_split_single(pieces[0], separator);
        assert(pieces == seq![pieces[0]]);
    } else {
        let init = pieces.drop_last();
        assert forall|i: int| 0 <= i < init.len() implies !(#[trigger] init[i]).contains(
            separator,
        ) by {
            assert(init[i] == pieces[i]);
        }
        lemma_split_join(init, separator);
        lemma_split_tail(join(init, separator), separator, pieces.last());
        assert(init.push(pieces.last()) == pieces);
    }
}

/// The first index lies within the text, points at the wanted character unless
/// it is the length, and no earlier character is the wanted one.
pub proof fn lemma_first_index(text: Seq<char>, wanted: char)
    ensures
        0 <= first_index(text, wanted) <= text.len(),
        first_index(text, wanted) < text.len() ==> text[first_index(text, wanted)] == wanted,
        forall|i: int| 0 <= i < first_index(text, wanted) ==> #[trigger] text[i] != wanted,
        text.contains(wanted) <==> first_index(text, wanted) < text.len(),
    decreases text.len(),
{
    if text.len() > 0 {
        if text[0] == wanted {
        } else {
            let rest = text.skip(1);
            lemma_first_index(rest, wanted);
            assert forall|i: int| 0 <= i < first_index(text, wanted) implies #[trigger] text[i]
                != wanted by {
                if i > 0 {
                    assert(rest[i - 1] == text[i]);
                }
            }
            if first_index(text, wanted) < text.len() {
                assert(rest[first_index(rest, wanted)] == text[first_index(text, wanted)]);
            } else if text.contains(wanted) {
                let k = choose|k: int| 0 <= k < text.len() && text[k] == wanted;
                assert(rest[k - 1] == wanted);
            }
        }
    }
}

/// The first index is the only position with its two properties.
pub proof fn lemma_first_index_unique(text: Seq<char>, wanted: char, at: int)
    requires
        0 <= at <= text.len(),
        forall|i: int| 0 <= i < at ==> #[trigger] text[i] != wanted,
        at < text.len() ==> text[at] == wanted,
    ensures
        first_index(text, wanted) == at,
{
    lemma_first_index(text, wanted);
    let found = first_index(text, wanted);
    if found < at {
        assert(text[found] != wanted);
    }
    if at < found {
        assert(text[at] != wanted);
    }
}

/// The value of the digits of a number is the number.
pub proof fn lemma_decimal_value(n: nat)
    ensures
        digits_value(decimal(n)) == n,
        all_digits(decimal(n)),
        decimal(n).len() >= 1,
    decreases n,
{
    if n < 10 {
        let text = decimal(n);
        assert(text.drop_last() == Seq::<char>::empty());
        assert(text.last() == digit_char(n));
        assert(digits_value(text.drop_last()) == 0);
    } else {
        lemma_decimal_value(n / 10);
        let text = decimal(n);
        assert(text.drop_last() == decimal(n / 10));
        assert(text.last() == digit_char(n % 10));
        assert forall|i: int| 0 <= i < text.len() implies is_digit(#[trigger] text[i]) by {
            if i < text.len() - 1 {
                assert(text[i] == decimal(n / 10)[i]);
            }
        }
    }
}

/// `list` with `item` at its place in dictionary order, once.
pub open spec fn insert_sorted(list: Seq<Seq<char>>, item: Seq<char>) -> Seq<Seq<char>>
    decreases list.len(),
{
    if list.len() == 0 {
        seq![item]
    } else if list.last() == item {
        list
    } else if order::text_before(list.last(), item) {
        list.push(item)
    } else {
        insert_sorted(list.drop_last(), item).push(list.last())
    }
}

/// The items in dictionary order, each once.
pub open spec fn sorted_unique(items: Seq<Seq<char>>) -> Seq<Seq<char>>
    decreases items.len(),
{
    if items.len() == 0 {
        Seq::empty()
    } else {
        insert_sorted(sorted_unique(items.drop_last()), items.last())
    }
}

/// Whether the list is in strictly ascending dictionary order.
pub open spec fn ascending(list: Seq<Seq<char>>) -> bool {
    forall|i: int, j: int|
        #![trigger list[i], list[j]]
        0 <= i < j < list.len() ==> order::text_before(list[i], list[j])
}

proof fn lemma_insert_sorted(list: Seq<Seq<char>>, item: Seq<char>)
    requires
        ascending(list),
    ensures
        ascending(insert_sorted(list, item)),
        forall|x: Seq<char>| #[trigger]
            insert_sorted(list, item).contains(x) <==> list.contains(x) || x == item,
    decreases list.len(),
{
    let result = insert_sorted(list, item);
    if list.len() == 0 {
        assert(result[0] == item);
    } else if list.last() == item {
        assert(list[list.len() - 1] == item);
    } else if order::text_before(list.last(), item) {
        assert forall|i: int, j: int|
            #![trigger result[i], result[j]]
            0 <= i < j < result.len() implies order::text_before(result[i], result[j]) by {
            if j == list.len() && i < list.len() - 1 {
                order::lemma_text_transitive(list[i], list.last(), item);
            }
        }
        assert forall|x: Seq<char>| #[trigger]
            result.contains(x) <==> list.contains(x) || x == item by {
            if list.contains(x) {
                let k = choose|k: int| 0 <= k < list.len() && list[k] == x;
                assert(result[k] == x);
            }
            if x == item {
                assert(result[list.len() as int] == x);
            }
        }
    } else {
        let init = list.drop_last();
        assert(ascending(init));
        lemma_insert_sorted(init, item);
        let inner = insert_sorted(init, item);
        order::lemma_text_total(list.last(), item);
        assert forall|i: int, j: int|
            #![trigger result[i], result[j]]
            0 <= i < j < result.len() implies order::text_before(result[i], result[j]) by {
            if j == inner.len() {
                assert(inner.contains(inner[i]));
                if inner[i] != item {
                    let k = choose|k: int| 0 <= k < init.len() && init[k] == inner[i];
                    assert(order::text_before(list[k], list[list.len() - 1]));
                }
            }
        }
        assert forall|x: Seq<char>| #[trigger]
            result.contains(x) <==> list.contains(x) || x == item by {
            if result.contains(x) {
                let k = choose|k: int| 0 <= k < result.len() && result[k] == x;
                if k < inner.len() {
                    assert(inner.contains(x));
                    if x != item {
                        let m = choose|m: int| 0 <= m < init.len() && init[m] == x;
                        assert(list[m] == x);
                    }
                } else {
                    assert(list[list.len() - 1] == x);
                }
            }
            if list.contains(x) {
                let k = choose|k: int| 0 <= k < list.len() && list[k] == x;
                if k < init.len() {
                    assert(init[k] == x);
                    assert(inner.contains(x));
                    let m = choose|m: int| 0 <= m < inner.len() && inner[m] == x;
                    assert(result[m] == x);
                } else {
                    assert(result[inner.len() as int] == x);
                }
            }
            if x == item {
                assert(inner.contains(x));
                let m = choose|m: int| 0 <= m < inner.len() && inner[m] == x;
                assert(result[m] == x);
            }
        }
    }
}

/// Sorting keeps exactly the items, in ascending order without repetition.
pub proof fn sorting_keeps_the_items(items: Seq<Seq<char>>)
    ensures
        ascending(sorted_unique(items)),
        forall|x: Seq<char>| #[trigger]
            sorted_unique(items).contains(x) <==> items.contains(x),
    decreases items.len(),
{
    if items.len() > 0 {
        let init = items.drop_last();
        sorting_keeps_the_items(init);
        lemma_insert_sorted(sorted_unique(init), items.last());
        assert forall|x: Seq<char>| #[trigger]
            sorted_unique(items).contains(x) <==> items.contains(x) by {
            assert(sorted_unique(init).contains(x) <==> init.contains(x));
            if items.contains(x) {
                let k = choose|k: int| 0 <= k < items.len() && items[k] == x;
                if k < init.len() {
                    assert(init[k] == x);
                }
            }
            if init.contains(x) {
                let k = choose|k: int| 0 <= k < init.len() && init[k] == x;
                assert(items[k] == x);
            }
            if x == items.last() {
                assert(items[items.len() - 1] == x);
            }
        }
    }
}

fn insert_text(list: Vec<String>, item: String) -> (r: Vec<String>)
    ensures
        views(r@) == insert_sorted(views(list@), item@),
    decreases list@.len(),
{
    let mut rest = list;
    let ghost before = rest@;
    match rest.pop() {
        None => {
            rest.push(item);
            proof {
                assert(views(rest@) =~= seq![item@]);
            }
            rest
        },
        Some(last) => {
            let ghost init = rest@;
            proof {
                assert(views(before).drop_last() =~= views(init));
                assert(views(before).last() == last@);
            }
            if same(last.as_str(), item.as_str()) {
                rest.push(last);
                proof {
                    assert(views(rest@) =~= views(before));
                }
                rest
            } else if order::text_is_before(last.as_str(), item.as_str()) {
                rest.push(last);
                rest.push(item);
                proof {
                    assert(views(rest@) =~= views(before).push(item@));
                }
                rest
            } else {
                let mut result = insert_text(rest, item);
                let ghost inner = result@;
                result.push(last);
                proof {
                    assert(views(result@) =~= views(inner).push(last@));
                }
                result
            }
        },
    }
}

/// The texts in dictionary order, each once.
pub fn sort_unique(items: &Vec<String>) -> (r: Vec<String>)
    ensures
        views(r@) == sorted_unique(views(items@)),
{
    let mut sorted: Vec<String> = Vec::new();
    let mut i: usize = 0;
    proof {
        assert(views(sorted@) =~= Seq::<Seq<char>>::empty());
    }
    while i < items.len()
        invariant
            i <= items@.len(),
            views(sorted@) == sorted_unique(views(items@).take(i as int)),
        decreases items@.len() - i,
    {
        proof {
            assert(views(items@).take(i + 1).drop_last() =~= views(items@).take(i as int));
            assert(views(items@).take(i + 1).last() == items@[i as int]@);
        }
        sorted = insert_text(sorted, items[i].clone());
        i = i + 1;
    }
    proof {
        assert(views(items@).take(i as int) =~= views(items@));
    }
    sorted
}

/// `std::str::from_utf8`: the text of bytes that are valid UTF-8, and nothing of
/// any others.
#[verifier::external_body]
pub(crate) fn utf8_text(bytes: &[u8]) -> (r: Option<String>)
    ensures
        opt_view(r) == if vstd::utf8::valid_utf8(bytes@) {
            Some(vstd::utf8::decode_utf8(bytes@))
        } else {
            None
        },
{
    match std::str::from_utf8(bytes) {
        Ok(text) => Some(text.to_owned()),
        Err(_) => None,
    }
}

/// Whether two texts hold the same characters.
pub fn same(a: &str, b: &str) -> (r: bool)
    ensures
        r == (a@ == b@),
{
    a.to_owned() == b.to_owned()
}

/// The characters of `text` as a list.
pub fn to_chars(text: &str) -> (r: Vec<char>)
    ensures
        r@ == text@,
{
    let mut chars: Vec<char> = Vec::new();
    for c in it: text.chars()
        invariant
            chars@ == it.seq().take(it.index()),
            it.seq() == text@,
    {
        chars.push(c);
    }
    chars
}

/// The string of the characters from `from` up to `to`.
pub fn from_chars(chars: &Vec<char>, from: usize, to: usize) -> (r: String)
    requires
        from <= to <= chars@.len(),
    ensures
        r@ == chars@.subrange(from as int, to as int),
{
    let mut text = String::new();
    let mut i: usize = from;
    while i < to
        invariant
            from <= i <= to <= chars@.len(),
            text@ == chars@.subrange(from as int, i as int),
        decreases to - i,
    {
        text.push(chars[i]);
        i = i + 1;
    }
    text
}

/// The two texts one after the other.
pub fn concat(a: &str, b: &str) -> (r: String)
    ensures
        r@ == a@ + b@,
{
    let mut text = a.to_owned();
    text.append(b);
    text
}

/// Whether `text` contains `wanted`.
pub fn contains_char(text: &str, wanted: char) -> (r: bool)
    ensures
        r == text@.contains(wanted),
{
    let chars = to_chars(text);
    let at: usize = find_char(&chars, wanted);
    at < chars.len()
}

/// The position of the first `wanted`, or the length of the list.
pub fn find_char(chars: &Vec<char>, wanted: char) -> (r: usize)
    ensures
        r == first_index(chars@, wanted),
        r <= chars@.len(),
        chars@.contains(wanted) <==> r < chars@.len(),
{
    let mut i: usize = 0;
    while i < chars.len() && chars[i] != wanted
        invariant
            i <= chars@.len(),
            forall|k: int| 0 <= k < i ==> #[trigger] chars@[k] != wanted,
        decreases chars@.len() - i,
    {
        i = i + 1;
    }
    proof {
        lemma_first_index_unique(chars@, wanted, i as int);
        lemma_first_index(chars@, wanted);
    }
    i
}

/// The pieces of `text` between separators.
pub fn split_text(text: &str, separator: char) -> (r: Vec<String>)
    ensures
        views(r@) == split(text@, separator),
{
    let chars = to_chars(text);
    let mut pieces: Vec<String> = Vec::new();
    let mut piece = String::new();
    let mut i: usize = 0;
    proof {
        assert(split(chars@.take(0), separator) == seq![Seq::<char>::empty()]);
        assert(views(pieces@).push(piece@) == split(chars@.take(0), separator));
    }
    while i < chars.len()
        invariant
            i <= chars@.len(),
            views(pieces@).push(piece@) == split(chars@.take(i as int), separator),
        decreases chars@.len() - i,
    {
        let c = chars[i];
        let ghost before = views(pieces@).push(piece@);
        proof {
            assert(chars@.take(i + 1).drop_last() == chars@.take(i as int));
            assert(chars@.take(i + 1).last() == c);
            assert(before.drop_last() == views(pieces@));
            assert(before.last() == piece@);
        }
        if c == separator {
            pieces.push(piece);
            piece = String::new();
            proof {
                assert(views(pieces@) == before);
            }
        } else {
            piece.push(c);
        }
        i = i + 1;
    }
    proof {
        assert(chars@.take(i as int) == chars@);
    }
    let ghost old_pieces = pieces@;
    let ghost last = piece@;
    pieces.push(piece);
    proof {
        assert(views(pieces@) == views(old_pieces).push(last));
    }
    pieces
}

/// The pieces joined with `separator` between them.
pub fn join_text(pieces: &[String], separator: char) -> (r: String)
    ensures
        r@ == join(views(pieces@), separator),
{
    let mut text = String::new();
    let mut i: usize = 0;
    while i < pieces.len()
        invariant
            i <= pieces@.len(),
            text@ == join(views(pieces@.take(i as int)), separator),
        decreases pieces@.len() - i,
    {
        proof {
            assert(views(pieces@.take(i + 1)).drop_last() == views(pieces@.take(i as int)));
            assert(views(pieces@.take(i + 1)).last() == pieces@[i as int]@);
        }
        if i > 0 {
            text.push(separator);
        }
        text.append(pieces[i].as_str());
        proof {
            if i == 0 {
                assert(text@ == pieces@[0]@);
            }
        }
        i = i + 1;
    }
    proof {
        assert(pieces@.take(i as int) == pieces@);
    }
    text
}

/// Whether `text` begins with `prefix`.
pub fn starts_with(text: &str, prefix: &str) -> (r: bool)
    ensures
        r == has_prefix(text@, prefix@),
{
    let text_chars = to_chars(text);
    let prefix_chars = to_chars(prefix);
    if prefix_chars.len() > text_chars.len() {
        return false;
    }
    let mut i: usize = 0;
    while i < prefix_chars.len()
        invariant
            i <= prefix_chars@.len() <= text_chars@.len(),
            text@ == text_chars@,
            prefix@ == prefix_chars@,
            forall|k: int| 0 <= k < i ==> text_chars@[k] == prefix_chars@[k],
        decreases prefix_chars@.len() - i,
    {
        if text_chars[i] != prefix_chars[i] {
            proof {
                assert(text@.take(prefix@.len() as int)[i as int] != prefix@[i as int]);
            }
            return false;
        }
        i = i + 1;
    }
    proof {
        assert(text@.take(prefix@.len() as int) == prefix@);
    }
    true
}

/// The decimal digits of a number below ten.
fn digit(n: u64) -> (r: char)
    requires
        n < 10,
    ensures
        r == digit_char(n as nat),
{
    match n {
        0 => '0',
        1 => '1',
        2 => '2',
        3 => '3',
        4 => '4',
        5 => '5',
        6 => '6',
        7 => '7',
        8 => '8',
        _ => '9',
    }
}

/// The decimal digits of `n`.
pub fn decimal_text(n: u64) -> (r: String)
    ensures
        r@ == decimal(n as nat),
    decreases n,
{
    if n < 10 {
        let mut text = String::new();
        text.push(digit(n));
        text
    } else {
        let mut text = decimal_text(n / 10);
        text.push(digit(n % 10));
        text
    }
}

/// The number the text writes in decimal digits, if the text is one or more
/// digits and the number is at most `max`.
pub fn parse_digits(text: &str, max: u64) -> (r: Option<u64>)
    ensures
        r == if text@.len() >= 1 && all_digits(text@) && digits_value(text@) <= max {
            Some(digits_value(text@) as u64)
        } else {
            None
        },
{
    let chars = to_chars(text);
    if chars.len() == 0 {
        return None;
    }
    let mut value: u64 = 0;
    let mut i: usize = 0;
    while i < chars.len()
        invariant
            i <= chars@.len(),
            chars@ == text@,
            all_digits(chars@.take(i as int)),
            value == digits_value(chars@.take(i as int)),
            value <= max,
        decreases chars@.len() - i,
    {
        let c = chars[i];
        if !(c >= '0' && c <= '9') {
            proof {
                assert(!is_digit(text@[i as int]));
            }
            return None;
        }
        let d: u64 = (c as u32 - '0' as u32) as u64;
        proof {
            assert(chars@.take(i + 1).drop_last() == chars@.take(i as int));
            assert(chars@.take(i + 1).last() == c);
            lemma_digits_value_monotone(text@, i + 1);
        }
        if d > max || value > (max - d) / 10 {
            proof {
                assert(digits_value(chars@.take(i + 1)) > max);
            }
            return None;
        }
        value = value * 10 + d;
        i = i + 1;
        proof {
            assert forall|k: int| 0 <= k < i implies is_digit(
                #[trigger] chars@.take(i as int)[k],
            ) by {
                if k < i - 1 {
                    assert(chars@.take(i - 1)[k] == chars@[k]);
                    assert(is_digit(chars@.take(i - 1)[k]));
                }
            }
        }
    }
    proof {
        assert(chars@.take(i as int) == text@);
    }
    Some(value)
}

/// A longer run of characters never writes a smaller number.
proof fn lemma_digits_value_monotone(text: Seq<char>, n: int)
    requires
        0 <= n <= text.len(),
    ensures
        digits_value(text.take(n)) <= digits_value(text),
    decreases text.len(),
{
    if n < text.len() {
        lemma_digits_value_monotone(text.drop_last(), n);
        assert(text.drop_last().take(n) == text.take(n));
    } else {
        assert(text.take(n) == text);
    }
}

/// The text with ASCII letters in lower case.
pub fn to_lower(text: &str) -> (r: String)
    ensures
        r@ == lowered(text@),
{
    let chars = to_chars(text);
    let mut lower_text = String::new();
    let mut i: usize = 0;
    while i < chars.len()
        invariant
            i <= chars@.len(),
            lower_text@ == lowered(chars@.take(i as int)),
        decreases chars@.len() - i,
    {
        let c = chars[i];
        lower_text.push(lower_char(c));
        i = i + 1;
        proof {
            assert(lower_text@ =~= lowered(chars@.take(i as int)));
        }
    }
    proof {
        assert(chars@.take(i as int) == text@);
    }
    lower_text
}

fn lower_char(c: char) -> (r: char)
    ensures
        r == lower(c),
{
    if c >= 'A' && c <= 'Z' {
        let code: u8 = (c as u32 + 32) as u8;
        code as char
    } else {
        c
    }
}

} // verus!
