//! Cleaning the text of a recognised block: a short token of noise behind
//! the last space is cut off, and so is a run of punctuation at the end.
//!
//! Only the end of a text is ever cut, so the result is given as the number
//! of characters that stay.

use vstd::prelude::*;
use crate::markdown_gen::{utf8_length, utf8_width};
use crate::text::{is_digit, is_whitespace, marks_whitespace, trimmed};

verus! {

/// The most characters that a token of noise has.
pub const NOISE_TOKEN_MAX: usize = 3;

/// The least number of bytes of punctuation at the end that are cut off.
pub const TRAILING_MARKS_MIN_BYTES: usize = 6;

/// Whether `c` is alphabetic or numeric, as `char::is_alphanumeric` reports
/// it.
pub uninterp spec fn is_alphanumeric(c: char) -> bool;

/// Calls `char::is_alphanumeric`; the result is the named property of `c`.
#[verifier::external_body]
fn char_is_alphanumeric(c: char) -> (a: bool)
    ensures
        a == is_alphanumeric(c),
{
    c.is_alphanumeric()
}

/// Whether `letter` tells of each character of `s` whether it is
/// alphanumeric.
pub open spec fn marks_alphanumeric(letter: Seq<bool>, s: Seq<char>) -> bool {
    letter.len() == s.len() && forall|i: int|
        0 <= i < s.len() ==> letter[i] == is_alphanumeric(#[trigger] s[i])
}

/// Whether `c` is a full stop, a comma or a corner bracket of Japanese.
pub open spec fn is_sentence_mark(c: char) -> bool {
    c == '。' || c == '、' || c == '」' || c == '「'
}

/// Whether `c` is a particle of one character, which may stand alone.
pub open spec fn is_particle(c: char) -> bool {
    c == 'の' || c == 'は' || c == 'が' || c == 'を' || c == 'に' || c == 'で' || c == 'と' || c
        == 'も' || c == 'か' || c == 'な' || c == 'だ' || c == 'る' || c == 'た' || c == 'て' || c
        == 'へ' || c == 'や'
}

/// Whether `c` is punctuation that is cut off where it is repeated at the
/// end.
pub open spec fn is_trailing_mark(c: char) -> bool {
    c == '。' || c == '·' || c == '・' || c == '.' || c == ','
}

/// Whether the character at `i` carries meaning: a letter, or a digit that
/// is no digit of ASCII, or a sentence mark.
pub open spec fn is_meaningful_at(s: Seq<char>, letter: Seq<bool>, i: int) -> bool {
    (letter[i] && !is_digit(s[i])) || is_sentence_mark(s[i])
}

/// The place of the last space before `end`; -1 where there is none.
pub open spec fn last_space_before(s: Seq<char>, end: int) -> int
    decreases end,
{
    if end <= 0 {
        -1
    } else if s[end - 1] == ' ' {
        end - 1
    } else {
        last_space_before(s, end - 1)
    }
}

/// The end of the text before `end` once the blank characters at its end
/// are removed.
pub open spec fn visible_end(blank: Seq<bool>, end: int) -> int
    decreases end,
{
    if end <= 0 {
        0
    } else if blank[end - 1] {
        visible_end(blank, end - 1)
    } else {
        end
    }
}

/// The end of the text before `end` once the trailing marks at its end are
/// removed.
pub open spec fn marks_end(s: Seq<char>, end: int) -> int
    decreases end,
{
    if end <= 0 {
        0
    } else if is_trailing_mark(s[end - 1]) {
        marks_end(s, end - 1)
    } else {
        end
    }
}

/// The number of characters from `from` up to `to` that carry meaning.
pub open spec fn meaningful_between(s: Seq<char>, letter: Seq<bool>, from: int, to: int) -> int
    decreases to - from,
{
    if to <= from {
        0
    } else {
        meaningful_between(s, letter, from, to - 1) + if is_meaningful_at(s, letter, to - 1) {
            1int
        } else {
            0int
        }
    }
}

/// The number of bytes that the characters from `from` up to `to` take in
/// UTF-8.
pub open spec fn bytes_between(s: Seq<char>, from: int, to: int) -> int
    decreases to - from,
{
    if to <= from {
        0
    } else {
        utf8_width(s[from]) + bytes_between(s, from + 1, to)
    }
}

/// The end of a text once a token of noise behind its last space is cut
/// off: the token has one to three characters, at most one of them carries
/// meaning, and it is no particle that stands alone. The blank characters
/// before the token go with it.
pub open spec fn token_end(s: Seq<char>, blank: Seq<bool>, letter: Seq<bool>) -> int {
    let at = last_space_before(s, s.len() as int);
    let length = s.len() - at - 1;
    if at >= 0 && 1 <= length <= NOISE_TOKEN_MAX && meaningful_between(
        s,
        letter,
        at + 1,
        s.len() as int,
    ) <= 1 && !(length == 1 && is_particle(s[at + 1])) {
        visible_end(blank, at)
    } else {
        s.len() as int
    }
}

/// The end of a text once its trailing noise is cut off: first a token of
/// noise, then the trailing marks where they take six bytes or more, with
/// the blank characters before them.
pub open spec fn noise_end(s: Seq<char>, blank: Seq<bool>, letter: Seq<bool>) -> int {
    let first = token_end(s, blank, letter);
    let cut = marks_end(s, first);
    if bytes_between(s, cut, first) >= TRAILING_MARKS_MIN_BYTES {
        visible_end(blank, cut)
    } else {
        first
    }
}

/// Of each character whether it is whitespace.
pub open spec fn whitespace_of(s: Seq<char>) -> Seq<bool> {
    Seq::new(s.len(), |i: int| is_whitespace(s[i]))
}

/// Of each character whether it is alphanumeric.
pub open spec fn alphanumeric_of(s: Seq<char>) -> Seq<bool> {
    Seq::new(s.len(), |i: int| is_alphanumeric(s[i]))
}

/// A text without its trailing noise.
pub open spec fn without_trailing_noise(s: Seq<char>) -> Seq<char> {
    s.take(noise_end(s, whitespace_of(s), alphanumeric_of(s)))
}

/// The text of a block, trimmed and without its trailing noise.
pub open spec fn cleaned_block_text(text: Seq<char>) -> Seq<char> {
    without_trailing_noise(trimmed(text))
}

/// The ends that the specifications name lie within the text, and no
/// further than where they start.
pub proof fn lemma_ends_within(s: Seq<char>, blank: Seq<bool>, end: int)
    requires
        0 <= end <= s.len(),
        blank.len() == s.len(),
    ensures
        0 <= visible_end(blank, end) <= end,
        0 <= marks_end(s, end) <= end,
        -1 <= last_space_before(s, end) < end,
        last_space_before(s, end) >= 0 ==> s[last_space_before(s, end)] == ' ',
    decreases end,
{
    if end > 0 {
        lemma_ends_within(s, blank, end - 1);
    }
}

/// Of each character whether it is alphanumeric.
pub fn alphanumeric_marks(chars: &Vec<char>) -> (letter: Vec<bool>)
    ensures
        marks_alphanumeric(letter@, chars@),
        letter@ == alphanumeric_of(chars@),
{
    let n: usize = chars.len();
    let mut letter: Vec<bool> = Vec::new();
    let mut i: usize = 0;
    while i < n
        invariant
            i <= n == chars.len(),
            letter@.len() == i,
            forall|k: int| 0 <= k < i ==> letter@[k] == is_alphanumeric(#[trigger] chars@[k]),
        decreases n - i,
    {
        letter.push(char_is_alphanumeric(chars[i]));
        i += 1;
    }
    assert(letter@ =~= alphanumeric_of(chars@));
    letter
}

/// The end of the text before `end` once the blank characters at its end
/// are removed.
pub fn find_visible_end(blank: &[bool], end: usize) -> (e: usize)
    requires
        end <= blank.len(),
    ensures
        e == visible_end(blank@, end as int),
        e <= end,
{
    let mut e: usize = end;
    while e > 0 && blank[e - 1]
        invariant
            e <= end <= blank.len(),
            visible_end(blank@, end as int) == visible_end(blank@, e as int),
        decreases e,
    {
        e -= 1;
    }
    e
}

/// Whether the character is a particle of one character.
fn char_is_particle(c: char) -> (p: bool)
    ensures
        p == is_particle(c),
{
    c == 'の' || c == 'は' || c == 'が' || c == 'を' || c == 'に' || c == 'で' || c == 'と' || c
        == 'も' || c == 'か' || c == 'な' || c == 'だ' || c == 'る' || c == 'た' || c == 'て' || c
        == 'へ' || c == 'や'
}

/// The end of a text once its trailing noise is cut off, given of each
/// character whether it is blank and whether it is alphanumeric.
pub fn find_noise_end(chars: &[char], blank: &[bool], letter: &[bool]) -> (end: usize)
    requires
        blank.len() == chars.len(),
        letter.len() == chars.len(),
    ensures
        end == noise_end(chars@, blank@, letter@),
        end <= chars.len(),
{
    let n: usize = chars.len();
    // The last space.
    let mut at: usize = n;
    while at > 0 && chars[at - 1] != ' '
        invariant
            at <= n == chars.len(),
            last_space_before(chars@, n as int) == last_space_before(chars@, at as int),
        decreases at,
    {
        at -= 1;
    }
    let mut first: usize = n;
    if at > 0 {
        let space: usize = at - 1;
        let length: usize = n - at;
        if 1 <= length && length <= NOISE_TOKEN_MAX {
            let mut meaningful: usize = 0;
            let mut i: usize = at;
            while i < n
                invariant
                    at <= i <= n == chars.len(),
                    letter.len() == n,
                    n - at <= NOISE_TOKEN_MAX,
                    meaningful <= i - at,
                    meaningful == meaningful_between(chars@, letter@, at as int, i as int),
                decreases n - i,
            {
                let c: char = chars[i];
                let digit = c >= '0' && c <= '9';
                let mark = c == '。' || c == '、' || c == '」' || c == '「';
                if (letter[i] && !digit) || mark {
                    meaningful += 1;
                }
                i += 1;
            }
            if meaningful <= 1 && !(length == 1 && char_is_particle(chars[at])) {
                first = find_visible_end(blank, space);
            }
        }
    }
    proof {
        lemma_ends_within(chars@, blank@, n as int);
    }
    // The trailing marks.
    let mut cut: usize = first;
    let mut bytes: usize = 0;
    while cut > 0 && (chars[cut - 1] == '。' || chars[cut - 1] == '·' || chars[cut - 1] == '・'
        || chars[cut - 1] == '.' || chars[cut - 1] == ',')
        invariant
            cut <= first <= n == chars.len(),
            marks_end(chars@, first as int) == marks_end(chars@, cut as int),
            bytes <= TRAILING_MARKS_MIN_BYTES,
            bytes == (if bytes_between(chars@, cut as int, first as int)
                > TRAILING_MARKS_MIN_BYTES {
                TRAILING_MARKS_MIN_BYTES as int
            } else {
                bytes_between(chars@, cut as int, first as int)
            }),
            bytes_between(chars@, cut as int, first as int) >= 0,
        decreases cut,
    {
        let code: u32 = chars[cut - 1] as u32;
        let width: usize = if code < 0x80 {
            1
        } else if code < 0x800 {
            2
        } else if code < 0x10000 {
            3
        } else {
            4
        };
        bytes = if bytes + width > TRAILING_MARKS_MIN_BYTES {
            TRAILING_MARKS_MIN_BYTES
        } else {
            bytes + width
        };
        cut -= 1;
    }
    if bytes >= TRAILING_MARKS_MIN_BYTES {
        find_visible_end(blank, cut)
    } else {
        first
    }
}

} // verus!
