//! Whitespace, words, and numbers in text.

use crate::text;
use vstd::prelude::*;

verus! {

broadcast use vstd::string::group_string_axioms;

/// Whether a character is white space, in the sense of Unicode.
pub open spec fn is_space(c: char) -> bool {
    let n = c as u32;
    (9 <= n <= 13) || n == 32 || n == 0x85 || n == 0xA0 || n == 0x1680 || (0x2000 <= n <= 0x200A)
        || n == 0x2028 || n == 0x2029 || n == 0x202F || n == 0x205F || n == 0x3000
}

/// The text without white space at its end.
pub open spec fn trimmed_end(text: Seq<char>) -> Seq<char>
    decreases text.len(),
{
    if text.len() > 0 && is_space(text.last()) {
        trimmed_end(text.drop_last())
    } else {
        text
    }
}

/// The text without white space at its start.
pub open spec fn trimmed_start(text: Seq<char>) -> Seq<char>
    decreases text.len(),
{
    if text.len() > 0 && is_space(text[0]) {
        trimmed_start(text.skip(1))
    } else {
        text
    }
}

/// The text without white space around it.
pub open spec fn trimmed(text: Seq<char>) -> Seq<char> {
    trimmed_end(trimmed_start(text))
}

/// The words before the last white space, and what follows it.
pub open spec fn word_split(text: Seq<char>) -> (Seq<Seq<char>>, Seq<char>)
    decreases text.len(),
{
    if text.len() == 0 {
        (Seq::empty(), Seq::empty())
    } else {
        let (words, current) = word_split(text.drop_last());
        if is_space(text.last()) {
            (
                if current.len() > 0 {
                    words.push(current)
                } else {
                    words
                },
                Seq::empty(),
            )
        } else {
            (words, current.push(text.last()))
        }
    }
}

/// The words of a text: its longest runs without white space.
pub open spec fn words(text: Seq<char>) -> Seq<Seq<char>> {
    let (done, current) = word_split(text);
    if current.len() > 0 {
        done.push(current)
    } else {
        done
    }
}

/// The position of the last `wanted`, or minus one when there is none.
pub open spec fn last_index(text: Seq<char>, wanted: char) -> int
    decreases text.len(),
{
    if text.len() == 0 {
        -1
    } else if text.last() == wanted {
        text.len() - 1
    } else {
        last_index(text.drop_last(), wanted)
    }
}

/// The digits of an unsigned number, behind an optional plus sign.
pub open spec fn number_digits(text: Seq<char>) -> Seq<char> {
    if text.len() > 0 && text[0] == '+' {
        text.skip(1)
    } else {
        text
    }
}

/// The number a text writes in decimal, with an optional plus sign, if it is at
/// most `max`.
pub open spec fn unsigned(text: Seq<char>, max: nat) -> Option<nat> {
    let digits = number_digits(text);
    if digits.len() >= 1 && text::all_digits(digits) && text::digits_value(digits) <= max {
        Some(text::digits_value(digits))
    } else {
        None
    }
}

fn space(c: char) -> (r: bool)
    ensures
        r == is_space(c),
{
    let n: u32 = c as u32;
    (9 <= n && n <= 13) || n == 32 || n == 0x85 || n == 0xA0 || n == 0x1680 || (0x2000 <= n && n
        <= 0x200A) || n == 0x2028 || n == 0x2029 || n == 0x202F || n == 0x205F || n == 0x3000
}

/// The text without white space at its end.
pub fn trim_end(text: &str) -> (r: String)
    ensures
        r@ == trimmed_end(text@),
{
    let chars = text::to_chars(text);
    let mut end: usize = chars.len();
    proof {
        assert(chars@.take(end as int) =~= text@);
    }
    while end > 0 && space(chars[end - 1])
        invariant
            end <= chars@.len(),
            trimmed_end(chars@.take(end as int)) == trimmed_end(text@),
        decreases end,
    {
        proof {
            assert(chars@.take(end as int).drop_last() =~= chars@.take(end - 1));
        }
        end = end - 1;
    }
    proof {
        assert(chars@.subrange(0, end as int) =~= chars@.take(end as int));
    }
    text::from_chars(&chars, 0, end)
}

/// The text without white space around it.
pub fn trim(text: &str) -> (r: String)
    ensures
        r@ == trimmed(text@),
{
    let chars = text::to_chars(text);
    let mut start: usize = 0;
    proof {
        assert(chars@.skip(0) =~= text@);
    }
    while start < chars.len() && space(chars[start])
        invariant
            start <= chars@.len(),
            trimmed_start(chars@.skip(start as int)) == trimmed_start(text@),
        decreases chars@.len() - start,
    {
        proof {
            assert(chars@.skip(start as int).skip(1) =~= chars@.skip(start + 1));
        }
        start = start + 1;
    }
    let rest = text::from_chars(&chars, start, chars.len());
    proof {
        assert(rest@ =~= chars@.skip(start as int));
    }
    trim_end(rest.as_str())
}

/// The words of a text.
pub fn split_words(text: &str) -> (r: Vec<String>)
    ensures
        text::views(r@) == words(text@),
{
    let chars = text::to_chars(text);
    let mut done: Vec<String> = Vec::new();
    let mut current = String::new();
    let mut i: usize = 0;
    proof {
        assert(text::views(done@) =~= Seq::<Seq<char>>::empty());
        assert(current@ =~= Seq::<char>::empty());
    }
    while i < chars.len()
        invariant
            i <= chars@.len(),
            (text::views(done@), current@) == word_split(chars@.take(i as int)),
        decreases chars@.len() - i,
    {
        let c = chars[i];
        proof {
            assert(chars@.take(i + 1).drop_last() =~= chars@.take(i as int));
            assert(chars@.take(i + 1).last() == c);
        }
        if space(c) {
            if !current.as_str().is_empty() {
                let ghost before = done@;
                let ghost word = current@;
                done.push(current);
                proof {
                    assert(text::views(done@) =~= text::views(before).push(word));
                }
            }
            current = String::new();
        } else {
            current.push(c);
        }
        i = i + 1;
    }
    proof {
        assert(chars@.take(i as int) =~= text@);
    }
    if !current.as_str().is_empty() {
        let ghost before = done@;
        let ghost word = current@;
        done.push(current);
        proof {
            assert(text::views(done@) =~= text::views(before).push(word));
        }
    }
    done
}

/// The position of the last `wanted`, if there is one.
pub fn find_last(chars: &Vec<char>, wanted: char) -> (r: Option<usize>)
    ensures
        match r {
            Some(i) => i < chars@.len() && last_index(chars@, wanted) == i,
            None => last_index(chars@, wanted) == -1,
        },
{
    let mut end: usize = chars.len();
    proof {
        assert(chars@.take(end as int) =~= chars@);
    }
    while end > 0
        invariant
            end <= chars@.len(),
            last_index(chars@.take(end as int), wanted) == last_index(chars@, wanted),
        decreases end,
    {
        proof {
            assert(chars@.take(end as int).drop_last() =~= chars@.take(end - 1));
            assert(chars@.take(end as int).last() == chars@[end - 1]);
        }
        if chars[end - 1] == wanted {
            return Some(end - 1);
        }
        end = end - 1;
    }
    None
}

/// The number a text writes in decimal, with an optional plus sign, if it is at
/// most `max`.
pub fn parse_unsigned(text: &str, max: u64) -> (r: Option<u64>)
    ensures
        match r {
            Some(n) => unsigned(text@, max as nat) == Some(n as nat),
            None => unsigned(text@, max as nat) is None,
        },
{
    let chars = text::to_chars(text);
    if chars.len() > 0 && chars[0] == '+' {
        let digits = text::from_chars(&chars, 1, chars.len());
        proof {
            assert(digits@ =~= text@.skip(1));
        }
        text::parse_digits(digits.as_str(), max)
    } else {
        text::parse_digits(text, max)
    }
}

/// Whether two texts are the same but for the case of ASCII letters.
pub fn same_ignoring_case(a: &str, b: &str) -> (r: bool)
    ensures
        r == (text::lowered(a@) == text::lowered(b@)),
{
    let left = text::to_lower(a);
    let right = text::to_lower(b);
    text::same(left.as_str(), right.as_str())
}

} // verus!
