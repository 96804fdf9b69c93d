//! Input words given as text: numbers separated by commas.

use vstd::prelude::*;
use vstd::string::*;

verus! {

/// The value of a decimal digit, or -1 for any other character.
pub open spec fn digit_of(c: char) -> int {
    if c == '0' {
        0
    } else if c == '1' {
        1
    } else if c == '2' {
        2
    } else if c == '3' {
        3
    } else if c == '4' {
        4
    } else if c == '5' {
        5
    } else if c == '6' {
        6
    } else if c == '7' {
        7
    } else if c == '8' {
        8
    } else if c == '9' {
        9
    } else {
        -1
    }
}

/// Every character is a decimal digit.
pub open spec fn all_digits(s: Seq<char>) -> bool {
    forall|i: int| 0 <= i < s.len() ==> digit_of(#[trigger] s[i]) >= 0
}

/// The number that a run of decimal digits writes.
pub open spec fn value_of(s: Seq<char>) -> int
    decreases s.len(),
{
    if s.len() == 0 {
        0
    } else {
        value_of(s.drop_last()) * 10 + digit_of(s.last())
    }
}

/// The word that a token writes: an optional plus sign, then one or more
/// decimal digits whose value fits in 32 bits. Any other token writes none.
pub open spec fn word_of(token: Seq<char>) -> Option<u32> {
    let digits = if token.len() > 0 && token[0] == '+' {
        token.skip(1)
    } else {
        token
    };
    if digits.len() > 0 && all_digits(digits) && value_of(digits) <= u32::MAX {
        Some(value_of(digits) as u32)
    } else {
        None
    }
}

/// Position of the last comma in `s`, or -1 if it has none.
pub open spec fn last_comma(s: Seq<char>) -> int
    decreases s.len(),
{
    if s.len() == 0 {
        -1
    } else if s.last() == ',' {
        s.len() - 1
    } else {
        last_comma(s.drop_last())
    }
}

/// The words that `s` lists: `s` is cut at every comma, and each piece that
/// writes a word gives it, in order; the other pieces are passed over.
pub open spec fn words_of(s: Seq<char>) -> Seq<u32>
    decreases s.len(),
{
    let cut = last_comma(s);
    let head = if 0 <= cut < s.len() {
        words_of(s.subrange(0, cut))
    } else {
        Seq::empty()
    };
    match word_of(s.subrange(cut + 1, s.len() as int)) {
        Some(word) => head.push(word),
        None => head,
    }
}

/// `str::parse::<u32>` from the standard library, its error dropped. It
/// accepts an optional plus sign followed by decimal digits only, and
/// refuses the empty string, any other character, and a value that does not
/// fit in 32 bits.
#[verifier::external_body]
fn parse_word(token: &str) -> (word: Option<u32>)
    ensures
        word == word_of(token@),
{
    token.parse::<u32>().ok()
}

/// Reads a list of words separated by commas. A piece between commas that
/// is not a number is dropped silently.
pub fn parse_words(text: &str) -> (words: Vec<u32>)
    ensures
        words@ == words_of(text@),
{
    let len: usize = text.unicode_len();
    let mut words: Vec<u32> = Vec::new();
    let mut start: usize = 0;
    let mut at: usize = 0;
    assert(text@.take(0).len() == 0);
    while at < len
        invariant
            start <= at <= len,
            len == text@.len(),
            last_comma(text@.take(at as int)) == start - 1,
            words@ == (if start == 0 {
                Seq::empty()
            } else {
                words_of(text@.take(start - 1))
            }),
        decreases len - at,
    {
        proof {
            assert(text@.take(at + 1).drop_last() =~= text@.take(at as int));
            assert(text@.take(at + 1).last() == text@[at as int]);
        }
        if text.get_char(at) == ',' {
            let token = text.substring_char(start, at);
            proof {
                let seen = text@.take(at as int);
                assert(seen.subrange(start as int, seen.len() as int) =~= token@);
                if start > 0 {
                    assert(seen.subrange(0, start - 1) =~= text@.take(start - 1));
                }
            }
            match parse_word(token) {
                Some(word) => {
                    words.push(word);
                },
                None => {},
            }
            start = at + 1;
        }
        at = at + 1;
    }
    let token = text.substring_char(start, len);
    proof {
        assert(text@.take(at as int) =~= text@);
        assert(text@.subrange(start as int, text@.len() as int) =~= token@);
        if start > 0 {
            assert(text@.subrange(0, start - 1) =~= text@.take(start - 1));
        }
    }
    match parse_word(token) {
        Some(word) => {
            words.push(word);
        },
        None => {},
    }
    words
}

} // verus!
