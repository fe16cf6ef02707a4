//! The generator that writes a book out as Markdown, and its rules on
//! lines of recognised text: which lines are stray page numbers, reading
//! aids or noise, and which characters a file name may hold.

use vstd::prelude::*;
use crate::block_text::{
    alphanumeric_marks, cleaned_block_text, find_noise_end, whitespace_of,
    without_trailing_noise,
};
use crate::normalize::{normalize_chars, normalized};
use crate::text::{
    chars_of, is_digit, push_char, string_of, trim_bounds, trimmed, trimmed_chars,
    whitespace_marks,
};

verus! {

/// The least length in bytes from which a text is tested for noise.
pub const NOISE_FILTER_MIN_LEN: usize = 8;

/// A text is noise when more than this part of its characters, in percent,
/// are digits and punctuation.
pub const MAX_NOISE_PERCENT: u64 = 60;

/// A text with a long run of digits is noise when more than this part of
/// its characters, in percent, are digits and punctuation.
pub const DIGIT_RUN_NOISE_PERCENT: u64 = 30;

/// The length from which a run of digits counts as long.
pub const LONG_DIGIT_RUN: usize = 5;

/// Whether a file name cannot hold the character.
pub open spec fn is_reserved(c: char) -> bool {
    c == '/' || c == '\\' || c == ':' || c == '*' || c == '?' || c == '"' || c == '<' || c == '>'
        || c == '|'
}

/// The character that stands for `c` in a file name: an underscore for a
/// reserved character, and else `c`.
pub open spec fn sanitized_char(c: char) -> char {
    if is_reserved(c) {
        '_'
    } else {
        c
    }
}

/// The text with an underscore for every reserved character.
pub open spec fn sanitized(name: Seq<char>) -> Seq<char> {
    Seq::new(name.len(), |i: int| sanitized_char(name[i]))
}

/// Whether `c` is a punctuation character of ASCII.
pub open spec fn is_ascii_punctuation(c: char) -> bool {
    ('!' <= c <= '/') || (':' <= c <= '@') || ('[' <= c <= '`') || ('{' <= c <= '~')
}

/// Whether `c` is a space, a kana character or an ideographic space.
pub open spec fn is_kana_or_space(c: char) -> bool {
    c == ' ' || c == '\u{3000}' || ('\u{3040}' <= c <= '\u{309F}') || ('\u{30A0}' <= c
        <= '\u{30FF}')
}

/// Whether digits stand at the `count` positions from `start` on.
pub open spec fn digits_at(s: Seq<char>, start: int, count: int) -> bool {
    &&& 0 <= start
    &&& start + count <= s.len()
    &&& forall|k: int| start <= k < start + count ==> is_digit(#[trigger] s[k])
}

/// Whether `s` holds a run of `min_len` digits, and of one digit at least.
pub open spec fn has_digit_run(s: Seq<char>, min_len: int) -> bool {
    exists|start: int| #[trigger] digits_at(s, start, run_length(min_len))
}

/// The length of the run that is looked for: `min_len`, and one at least.
pub open spec fn run_length(min_len: int) -> int {
    if min_len < 1 {
        1
    } else {
        min_len
    }
}

/// The number of digits and punctuation characters of ASCII in `s`.
pub open spec fn noise_count(s: Seq<char>) -> nat
    decreases s.len(),
{
    if s.len() == 0 {
        0
    } else {
        noise_count(s.drop_last()) + if is_digit(s.last()) || is_ascii_punctuation(s.last()) {
            1nat
        } else {
            0nat
        }
    }
}

/// The number of bytes that a character takes in UTF-8.
pub open spec fn utf8_width(c: char) -> nat {
    if (c as u32) < 0x80 {
        1
    } else if (c as u32) < 0x800 {
        2
    } else if (c as u32) < 0x10000 {
        3
    } else {
        4
    }
}

/// The number of bytes that a text takes in UTF-8.
pub open spec fn utf8_length(s: Seq<char>) -> nat
    decreases s.len(),
{
    if s.len() == 0 {
        0
    } else {
        utf8_length(s.drop_last()) + utf8_width(s.last())
    }
}

/// Whether a line is a stray page number: trimmed, it consists of one to
/// four digits.
pub open spec fn page_number_line(text: Seq<char>) -> bool {
    let line = trimmed(text);
    1 <= line.len() <= 4 && forall|i: int| 0 <= i < line.len() ==> is_digit(#[trigger] line[i])
}

/// Whether a line is a reading aid: trimmed, it has two to fifteen
/// characters, a space among them, and nothing but kana and spaces.
pub open spec fn furigana_line(text: Seq<char>) -> bool {
    let line = trimmed(text);
    &&& 2 <= line.len() <= 15
    &&& line.contains(' ')
    &&& forall|i: int| 0 <= i < line.len() ==> is_kana_or_space(#[trigger] line[i])
}

/// Whether a text is noise: trimmed, it takes eight bytes or more, and
/// either more than six tenths of its characters are digits and
/// punctuation, or it holds a run of five digits and more than three tenths
/// of its characters are digits and punctuation.
pub open spec fn noise_text(text: Seq<char>) -> bool {
    let line = trimmed(text);
    utf8_length(line) >= NOISE_FILTER_MIN_LEN && (100 * noise_count(line) > MAX_NOISE_PERCENT
        * line.len() || (has_digit_run(line, LONG_DIGIT_RUN as int) && 100 * noise_count(line)
        > DIGIT_RUN_NOISE_PERCENT * line.len()))
}

/// A name that can be used as a file name: every character that a file name
/// cannot hold becomes an underscore.
pub fn sanitize_filename(name: &str) -> (clean: String)
    ensures
        clean@ == sanitized(name@),
{
    let chars = chars_of(name);
    let n: usize = chars.len();
    let mut clean = String::new();
    let mut i: usize = 0;
    while i < n
        invariant
            i <= n == chars.len(),
            chars@ == name@,
            clean@ == sanitized(name@).take(i as int),
        decreases n - i,
    {
        let c: char = chars[i];
        let reserved = c == '/' || c == '\\' || c == ':' || c == '*' || c == '?' || c == '"'
            || c == '<' || c == '>' || c == '|';
        push_char(&mut clean, if reserved { '_' } else { c });
        assert(clean@ =~= sanitized(name@).take(i as int + 1));
        i += 1;
    }
    assert(sanitized(name@).take(n as int) =~= sanitized(name@));
    clean
}

/// Whether the character is a decimal digit.
pub fn is_ascii_digit(c: char) -> (d: bool)
    ensures
        d == is_digit(c),
{
    c >= '0' && c <= '9'
}

/// The number of digits and punctuation characters of ASCII in the part of
/// `chars` from `start` to `end`.
fn count_noise(chars: &Vec<char>, start: usize, end: usize) -> (count: usize)
    requires
        start <= end <= chars.len(),
    ensures
        count == noise_count(chars@.subrange(start as int, end as int)),
        count <= end - start,
{
    let mut count: usize = 0;
    let mut i: usize = start;
    assert(chars@.subrange(start as int, start as int) =~= Seq::<char>::empty());
    while i < end
        invariant
            start <= i <= end <= chars.len(),
            count <= i - start,
            count == noise_count(chars@.subrange(start as int, i as int)),
        decreases end - i,
    {
        let c: char = chars[i];
        proof {
            let longer = chars@.subrange(start as int, i as int + 1);
            assert(longer.drop_last() =~= chars@.subrange(start as int, i as int));
            assert(longer.last() == c);
        }
        let punctuation = (c >= '!' && c <= '/') || (c >= ':' && c <= '@') || (c >= '[' && c
            <= '`') || (c >= '{' && c <= '~');
        if is_ascii_digit(c) || punctuation {
            count += 1;
        }
        i += 1;
    }
    count
}

/// The number of bytes that the part of `chars` from `start` to `end` takes
/// in UTF-8, counted up to `limit`.
pub fn utf8_length_up_to(chars: &Vec<char>, start: usize, end: usize, limit: usize) -> (length: usize)
    requires
        start <= end <= chars.len(),
        limit <= 1000,
    ensures
        length == (if utf8_length(chars@.subrange(start as int, end as int)) > limit {
            limit as nat
        } else {
            utf8_length(chars@.subrange(start as int, end as int))
        }),
{
    let mut length: usize = 0;
    let mut i: usize = start;
    let ghost whole = chars@.subrange(start as int, end as int);
    assert(chars@.subrange(start as int, start as int) =~= Seq::<char>::empty());
    while i < end && length < limit
        invariant
            start <= i <= end <= chars.len(),
            limit <= 1000,
            whole == chars@.subrange(start as int, end as int),
            length <= limit,
            length == (if utf8_length(chars@.subrange(start as int, i as int)) > limit {
                limit as nat
            } else {
                utf8_length(chars@.subrange(start as int, i as int))
            }),
        decreases end - i,
    {
        let c: char = chars[i];
        proof {
            let longer = chars@.subrange(start as int, i as int + 1);
            assert(longer.drop_last() =~= chars@.subrange(start as int, i as int));
            assert(longer.last() == c);
        }
        let code: u32 = c as u32;
        let width: usize = if code < 0x80 {
            1
        } else if code < 0x800 {
            2
        } else if code < 0x10000 {
            3
        } else {
            4
        };
        length = if length + width > limit { limit } else { length + width };
        i += 1;
    }
    proof {
        lemma_utf8_length_grows(whole, i - start);
        assert(whole.take(i - start) =~= chars@.subrange(start as int, i as int));
    }
    length
}

/// A text takes at least as many bytes as any of its beginnings.
pub proof fn lemma_utf8_length_grows(s: Seq<char>, k: int)
    requires
        0 <= k <= s.len(),
    ensures
        utf8_length(s.take(k)) <= utf8_length(s),
    decreases s.len() - k,
{
    if k == s.len() {
        assert(s.take(k) =~= s);
    } else {
        assert(s.take(k + 1).drop_last() =~= s.take(k));
        lemma_utf8_length_grows(s, k + 1);
    }
}

/// Writes a book out as Markdown into a directory of its own, with its
/// images and its pages in two directories below it.
#[derive(Debug)]
pub struct MarkdownGenerator {
    output_dir: std::path::PathBuf,
    images_dir: std::path::PathBuf,
    pages_dir: std::path::PathBuf,
}

impl MarkdownGenerator {
    /// The directory that the book is written to.
    pub closed spec fn spec_output_dir(&self) -> std::path::PathBuf {
        self.output_dir
    }

    /// The directory of the images.
    pub closed spec fn spec_images_dir(&self) -> std::path::PathBuf {
        self.images_dir
    }

    /// The directory of the pages.
    pub closed spec fn spec_pages_dir(&self) -> std::path::PathBuf {
        self.pages_dir
    }

    /// The generator that writes to the given directories.
    pub fn with_directories(
        output_dir: std::path::PathBuf,
        images_dir: std::path::PathBuf,
        pages_dir: std::path::PathBuf,
    ) -> (generator: Self)
        ensures
            generator.spec_output_dir() == output_dir,
            generator.spec_images_dir() == images_dir,
            generator.spec_pages_dir() == pages_dir,
    {
        MarkdownGenerator { output_dir, images_dir, pages_dir }
    }

    /// The directory that the book is written to.
    pub fn output_dir(&self) -> (dir: &std::path::PathBuf)
        ensures
            *dir == self.spec_output_dir(),
    {
        &self.output_dir
    }

    /// The directory of the images.
    pub fn images_dir(&self) -> (dir: &std::path::PathBuf)
        ensures
            *dir == self.spec_images_dir(),
    {
        &self.images_dir
    }

    /// The directory of the pages.
    pub fn pages_dir(&self) -> (dir: &std::path::PathBuf)
        ensures
            *dir == self.spec_pages_dir(),
    {
        &self.pages_dir
    }

    /// Whether a line is a stray page number: one to four digits.
    pub fn is_page_number_line(text: &str) -> (stray: bool)
        ensures
            stray == page_number_line(text@),
    {
        let chars = chars_of(text);
        line_is_page_number(&chars)
    }

    /// Whether a line is a reading aid: a short line of kana with a space
    /// in it.
    pub fn is_furigana_line(text: &str) -> (aid: bool)
        ensures
            aid == furigana_line(text@),
    {
        let chars = chars_of(text);
        line_is_furigana(&chars)
    }

    /// A text without its trailing noise: without a short token of noise
    /// behind its last space, and without a run of punctuation at its end.
    pub fn strip_trailing_noise(text: &str) -> (clean: String)
        ensures
            clean@ == without_trailing_noise(text@),
    {
        let chars = chars_of(text);
        let blank = whitespace_marks(&chars);
        let letter = alphanumeric_marks(&chars);
        assert(blank@ =~= whitespace_of(chars@));
        let end = find_noise_end(chars.as_slice(), blank.as_slice(), letter.as_slice());
        assert(chars@.subrange(0, end as int) =~= chars@.take(end as int));
        string_of(&chars, 0, end)
    }

    /// The text of a block, trimmed and without its trailing noise.
    pub fn clean_block_text(text: &str) -> (clean: String)
        ensures
            clean@ == cleaned_block_text(text@),
    {
        let chars = trimmed_chars(text);
        let blank = whitespace_marks(&chars);
        let letter = alphanumeric_marks(&chars);
        assert(blank@ =~= whitespace_of(chars@));
        let end = find_noise_end(chars.as_slice(), blank.as_slice(), letter.as_slice());
        assert(chars@.subrange(0, end as int) =~= chars@.take(end as int));
        string_of(&chars, 0, end)
    }

    /// Tidies Markdown line by line: runs of blank lines become one blank
    /// line, a stray page number before the first content goes, reading
    /// aids go, a line that begins with a plus sign becomes a heading, a
    /// line that repeats the line before it goes, and so do short lines of
    /// noise.
    pub fn normalize_markdown(md: &str) -> (tidy: String)
        ensures
            tidy@ == normalized(md@),
    {
        let chars = chars_of(md);
        let result = normalize_chars(&chars);
        string_of(&result, 0, result.len())
    }

    /// Whether a text holds a run of `min_len` digits, and of one digit at
    /// least.
    pub fn has_long_digit_run(text: &str, min_len: usize) -> (found: bool)
        ensures
            found == has_digit_run(text@, min_len as int),
    {
        let chars = chars_of(text);
        assert(chars@.subrange(0, chars.len() as int) =~= text@);
        run_of_digits(&chars, 0, chars.len(), min_len)
    }

    /// Whether a text is noise: mostly digits and punctuation, as a barcode
    /// or a garbled number gives it.
    pub fn is_noise_text(text: &str) -> (noise: bool)
        ensures
            noise == noise_text(text@),
    {
        let chars = chars_of(text);
        let bounds = trim_bounds(&chars);
        let start: usize = bounds.0;
        let end: usize = bounds.1;
        if utf8_length_up_to(&chars, start, end, NOISE_FILTER_MIN_LEN) < NOISE_FILTER_MIN_LEN {
            return false;
        }
        let total: u128 = (end - start) as u128;
        let noisy: u128 = count_noise(&chars, start, end) as u128;
        assert(MAX_NOISE_PERCENT * total == 60 * total && DIGIT_RUN_NOISE_PERCENT * total == 30
            * total) by (nonlinear_arith)
            requires
                MAX_NOISE_PERCENT == 60,
                DIGIT_RUN_NOISE_PERCENT == 30,
        ;
        if 100 * noisy > MAX_NOISE_PERCENT as u128 * total {
            return true;
        }
        let run = run_of_digits(&chars, start, end, LONG_DIGIT_RUN);
        run && 100 * noisy > DIGIT_RUN_NOISE_PERCENT as u128 * total
    }
}

/// Whether the characters of a line are a stray page number.
pub fn line_is_page_number(chars: &Vec<char>) -> (stray: bool)
    ensures
        stray == page_number_line(chars@),
{
    let bounds = trim_bounds(chars);
    let start: usize = bounds.0;
    let end: usize = bounds.1;
    let ghost line = trimmed(chars@);
    if end - start < 1 || end - start > 4 {
        return false;
    }
    let mut i: usize = start;
    while i < end
        invariant
            start <= i <= end <= chars.len(),
            line == chars@.subrange(start as int, end as int),
            line == trimmed(chars@),
            forall|k: int| 0 <= k < i - start ==> is_digit(#[trigger] line[k]),
        decreases end - i,
    {
        if !is_ascii_digit(chars[i]) {
            assert(!is_digit(line[i - start]));
            return false;
        }
        i += 1;
    }
    true
}

/// Whether the characters of a line are a reading aid.
pub fn line_is_furigana(chars: &Vec<char>) -> (aid: bool)
    ensures
        aid == furigana_line(chars@),
{
    let bounds = trim_bounds(chars);
    let start: usize = bounds.0;
    let end: usize = bounds.1;
    let ghost line = trimmed(chars@);
    if end - start < 2 || end - start > 15 {
        return false;
    }
    let mut spaced = false;
    let mut i: usize = start;
    while i < end
        invariant
            start <= i <= end <= chars.len(),
            line == chars@.subrange(start as int, end as int),
            line == trimmed(chars@),
            forall|k: int| 0 <= k < i - start ==> is_kana_or_space(#[trigger] line[k]),
            spaced == exists|k: int| 0 <= k < i - start && #[trigger] line[k] == ' ',
        decreases end - i,
    {
        let c: char = chars[i];
        let allowed = c == ' ' || c == '\u{3000}' || (c >= '\u{3040}' && c <= '\u{309F}') || (c
            >= '\u{30A0}' && c <= '\u{30FF}');
        if !allowed {
            assert(!is_kana_or_space(line[i - start]));
            return false;
        }
        if c == ' ' {
            assert(line[i - start] == ' ');
            spaced = true;
        }
        i += 1;
    }
    proof {
        if spaced {
            let k = choose|k: int| 0 <= k < end - start && #[trigger] line[k] == ' ';
            assert(line.contains(' '));
        } else if line.contains(' ') {
            let k = choose|k: int| 0 <= k < line.len() && line[k] == ' ';
            assert(line[k] == ' ');
        }
    }
    spaced
}

/// Whether the part of `chars` from `start` to `end` holds a run of
/// `min_len` digits, and of one digit at least.
fn run_of_digits(chars: &Vec<char>, start: usize, end: usize, min_len: usize) -> (found: bool)
    requires
        start <= end <= chars.len(),
    ensures
        found == has_digit_run(chars@.subrange(start as int, end as int), min_len as int),
{
    let ghost line = chars@.subrange(start as int, end as int);
    let need: usize = if min_len < 1 { 1 } else { min_len };
    let mut run: usize = 0;
    let mut i: usize = start;
    while i < end
        invariant
            start <= i <= end <= chars.len(),
            line == chars@.subrange(start as int, end as int),
            need == run_length(min_len as int),
            run <= i - start,
            run < need,
            digits_at(line, i - start - run, run as int),
            run < i - start ==> !is_digit(line[i - start - run - 1]),
            forall|s: int| s + need <= i - start ==> !#[trigger] digits_at(line, s, need as int),
        decreases end - i,
    {
        let c: char = chars[i];
        assert(line[i - start] == c);
        if is_ascii_digit(c) {
            run += 1;
            if run >= need {
                assert(digits_at(line, i - start + 1 - run, need as int));
                return true;
            }
            assert forall|s: int| s + need <= i + 1 - start implies !#[trigger] digits_at(
                line,
                s,
                need as int,
            ) by {
                if s + need == i + 1 - start && s >= 0 {
                    assert(s < i + 1 - start - run);
                    assert(!is_digit(line[i - start - run]));
                }
            }
        } else {
            assert forall|s: int| s + need <= i + 1 - start implies !#[trigger] digits_at(
                line,
                s,
                need as int,
            ) by {
                if s + need == i + 1 - start && s >= 0 {
                    assert(!is_digit(line[i - start]));
                }
            }
            run = 0;
        }
        i += 1;
    }
    assert forall|s: int| !#[trigger] digits_at(line, s, need as int) by {}
    false
}

} // verus!
