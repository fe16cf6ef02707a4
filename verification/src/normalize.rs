//! Tidying Markdown line by line.
//!
//! The lines of a text are taken one after another. What has been written
//! so far, the number of blank lines just seen, the line written last and
//! whether any content was written yet make up the state; each line changes
//! it.

use vstd::prelude::*;
use crate::markdown_gen::{
    furigana_line, is_ascii_digit, line_is_furigana, line_is_page_number, page_number_line,
    utf8_length, utf8_length_up_to,
};
use crate::text::{begins_with, is_digit, trim_chars, trimmed};

verus! {

/// The state of tidying, as sequences.
pub struct Tidied {
    /// What has been written.
    pub result: Seq<char>,
    /// The number of blank lines since the last line written, counted up to
    /// two.
    pub blanks: int,
    /// The line written last.
    pub previous: Option<Seq<char>>,
    /// Whether no content has been written yet.
    pub first_content: bool,
}

/// The state of tidying.
pub struct Normalizer {
    pub result: Vec<char>,
    pub blanks: u8,
    pub previous: Option<Vec<char>>,
    pub first_content: bool,
}

impl View for Normalizer {
    type V = Tidied;

    open spec fn view(&self) -> Tidied {
        Tidied {
            result: self.result@,
            blanks: self.blanks as int,
            previous: match self.previous {
                Some(line) => Some(line@),
                None => None,
            },
            first_content: self.first_content,
        }
    }
}

/// The state before the first line.
pub open spec fn untouched() -> Tidied {
    Tidied { result: Seq::empty(), blanks: 0, previous: None, first_content: true }
}

/// A line without the carriage return at its end, if it has one.
pub open spec fn without_carriage_return(line: Seq<char>) -> Seq<char> {
    if line.len() > 0 && line.last() == '\r' {
        line.drop_last()
    } else {
        line
    }
}

/// The lines of `s`, where `current` holds the beginning of the first of
/// them: a line ends at a line feed, and a carriage return before the line
/// feed belongs to the line ending. What follows the last line feed is a
/// line unless it is empty.
pub open spec fn lines_from(s: Seq<char>, current: Seq<char>) -> Seq<Seq<char>>
    decreases s.len(),
{
    if s.len() == 0 {
        if current.len() == 0 {
            Seq::empty()
        } else {
            seq![current]
        }
    } else if s[0] == '\n' {
        seq![without_carriage_return(current)] + lines_from(s.drop_first(), Seq::empty())
    } else {
        lines_from(s.drop_first(), current.push(s[0]))
    }
}

/// The lines of a text.
pub open spec fn split_lines(s: Seq<char>) -> Seq<Seq<char>> {
    lines_from(s, Seq::empty())
}

/// Whether `s` ends with a line feed.
pub open spec fn ends_line(s: Seq<char>) -> bool {
    s.len() > 0 && s.last() == '\n'
}

/// Whether `s` ends with a blank line.
pub open spec fn ends_blank(s: Seq<char>) -> bool {
    s.len() >= 2 && s[s.len() - 1] == '\n' && s[s.len() - 2] == '\n'
}

/// What was written, ended so that the next line begins a line of its own.
pub open spec fn on_new_line(result: Seq<char>) -> Seq<char> {
    if result.len() > 0 && !ends_line(result) {
        result.push('\n')
    } else {
        result
    }
}

/// What was written, ended with a blank line unless nothing was written.
pub open spec fn with_blank_line(result: Seq<char>) -> Seq<char> {
    if result.len() > 0 && !ends_blank(result) {
        on_new_line(result).push('\n')
    } else {
        result
    }
}

/// The text of the heading that a line makes: the line begins with a plus
/// sign, and what follows, trimmed, takes more than one byte.
pub open spec fn heading_of(line: Seq<char>) -> Option<Seq<char>> {
    if line.len() > 0 && line[0] == '+' && utf8_length(trimmed(line.drop_first())) > 1 {
        Some(trimmed(line.drop_first()))
    } else {
        None
    }
}

/// The line as it is written: a heading with its mark, any other line as it
/// is.
pub open spec fn written_form(line: Seq<char>) -> Seq<char> {
    match heading_of(line) {
        Some(text) => trimmed(seq!['#', '#', ' '] + text),
        None => trimmed(line),
    }
}

/// Whether a line repeats the line before it: the two are equal, or both
/// take five bytes or more and one begins with the other.
pub open spec fn repeats(previous: Option<Seq<char>>, line: Seq<char>) -> bool {
    match previous {
        Some(before) => before == line || (utf8_length(before) >= 5 && utf8_length(line) >= 5 && (
        begins_with(before, line) || begins_with(line, before))),
        None => false,
    }
}

/// Whether `c` is a letter or a digit of ASCII.
pub open spec fn is_ascii_alphanumeric(c: char) -> bool {
    is_digit(c) || ('a' <= c <= 'z') || ('A' <= c <= 'Z')
}

/// Whether every character is a digit.
pub open spec fn all_ascii_digits(s: Seq<char>) -> bool {
    forall|i: int| 0 <= i < s.len() ==> is_digit(#[trigger] s[i])
}

/// Whether every character is a letter or a digit of ASCII.
pub open spec fn all_ascii_alphanumeric(s: Seq<char>) -> bool {
    forall|i: int| 0 <= i < s.len() ==> is_ascii_alphanumeric(#[trigger] s[i])
}

/// Whether every character is a capital letter of ASCII.
pub open spec fn all_ascii_uppercase(s: Seq<char>) -> bool {
    forall|i: int| 0 <= i < s.len() ==> 'A' <= #[trigger] s[i] <= 'Z'
}

/// Whether a line begins with a mark of Markdown that keeps a short line.
pub open spec fn begins_with_mark(line: Seq<char>) -> bool {
    line.len() > 0 && (line[0] == '#' || line[0] == '-' || line[0] == '!')
}

/// Whether a line is short noise: three characters at most, no mark at its
/// beginning, and neither digits alone nor two or more letters and digits
/// of ASCII.
pub open spec fn is_short_noise(line: Seq<char>) -> bool {
    line.len() <= 3 && !begins_with_mark(line) && !(all_ascii_digits(line) || (utf8_length(line)
        >= 2 && all_ascii_alphanumeric(line)))
}

/// Whether a line is noise in capitals: five characters at most, capital
/// letters of ASCII only.
pub open spec fn is_uppercase_noise(line: Seq<char>) -> bool {
    line.len() <= 5 && all_ascii_uppercase(line) && !(line.len() > 0 && line[0] == '#')
}

/// The state after a line.
///
/// A blank line adds a line feed if it is the first blank line since the
/// last line written. A page number before any content, and a reading aid,
/// change nothing. A heading makes sure of a blank line before it, also
/// where it is then left out. A line that repeats the line written last, or
/// is noise, is left out. Any other line is written on a line of its own.
pub open spec fn after_line(state: Tidied, raw: Seq<char>) -> Tidied {
    let line = trimmed(raw);
    if line.len() == 0 {
        Tidied {
            result: if state.blanks < 1 {
                state.result.push('\n')
            } else {
                state.result
            },
            blanks: if state.blanks < 2 {
                state.blanks + 1
            } else {
                2
            },
            previous: state.previous,
            first_content: state.first_content,
        }
    } else if state.first_content && page_number_line(line) {
        state
    } else if furigana_line(line) {
        state
    } else {
        let result = if heading_of(line) is Some {
            with_blank_line(state.result)
        } else {
            state.result
        };
        let written = written_form(line);
        if repeats(state.previous, written) || is_short_noise(written) || is_uppercase_noise(
            written,
        ) {
            Tidied {
                result,
                blanks: state.blanks,
                previous: state.previous,
                first_content: state.first_content,
            }
        } else {
            Tidied {
                result: on_new_line(result) + written,
                blanks: 0,
                previous: Some(written),
                first_content: false,
            }
        }
    }
}

/// The state after some lines.
pub open spec fn after_lines(state: Tidied, lines: Seq<Seq<char>>) -> Tidied
    decreases lines.len(),
{
    if lines.len() == 0 {
        state
    } else {
        after_lines(after_line(state, lines.first()), lines.drop_first())
    }
}

/// The tidied text: what is written after all lines, ended with a line
/// feed unless it is empty.
pub open spec fn normalized(md: Seq<char>) -> Seq<char> {
    on_new_line(after_lines(untouched(), split_lines(md)).result)
}

/// Appends the characters of `more` to `result`.
pub fn append(result: &mut Vec<char>, more: &Vec<char>)
    ensures
        final(result)@ == old(result)@ + more@,
{
    let n: usize = more.len();
    let ghost before = result@;
    let mut i: usize = 0;
    assert(result@ =~= before + more@.take(0));
    while i < n
        invariant
            i <= n == more.len(),
            result@ == before + more@.take(i as int),
        decreases n - i,
    {
        result.push(more[i]);
        assert(result@ =~= before + more@.take(i as int + 1));
        i += 1;
    }
    assert(more@.take(n as int) =~= more@);
}

/// Ends what was written so that the next line begins a line of its own.
pub fn begin_line(result: &mut Vec<char>)
    ensures
        final(result)@ == on_new_line(old(result)@),
{
    let n: usize = result.len();
    if n > 0 && result[n - 1] != '\n' {
        result.push('\n');
    }
}

/// Ends what was written with a blank line, unless nothing was written.
pub fn leave_blank_line(result: &mut Vec<char>)
    ensures
        final(result)@ == with_blank_line(old(result)@),
{
    let n: usize = result.len();
    let blank = n >= 2 && result[n - 1] == '\n' && result[n - 2] == '\n';
    if n > 0 && !blank {
        begin_line(result);
        result.push('\n');
    }
}

/// Whether `s` begins with `prefix`.
pub fn begins(s: &Vec<char>, prefix: &Vec<char>) -> (b: bool)
    ensures
        b == begins_with(s@, prefix@),
{
    let n: usize = prefix.len();
    if n > s.len() {
        return false;
    }
    let mut i: usize = 0;
    while i < n
        invariant
            i <= n == prefix.len(),
            n <= s.len(),
            forall|k: int| 0 <= k < i ==> s@[k] == prefix@[k],
        decreases n - i,
    {
        if s[i] != prefix[i] {
            assert(s@.take(n as int)[i as int] != prefix@[i as int]);
            return false;
        }
        i += 1;
    }
    assert(s@.take(n as int) =~= prefix@);
    true
}

/// Whether two lines are the same.
pub fn same_line(a: &Vec<char>, b: &Vec<char>) -> (same: bool)
    ensures
        same == (a@ == b@),
{
    if a.len() != b.len() {
        return false;
    }
    let same = begins(a, b);
    proof {
        assert(a@.take(a.len() as int) =~= a@);
    }
    same
}

/// Whether a line takes `count` bytes or more, for a small `count`.
pub fn takes_bytes(line: &Vec<char>, count: usize) -> (enough: bool)
    requires
        count <= 1000,
    ensures
        enough == (utf8_length(line@) >= count),
{
    assert(line@.subrange(0, line.len() as int) =~= line@);
    utf8_length_up_to(line, 0, line.len(), count) >= count
}

/// Whether a line repeats the line before it.
pub fn is_repeat(previous: &Option<Vec<char>>, line: &Vec<char>) -> (repeat: bool)
    ensures
        repeat == repeats(
            match *previous {
                Some(before) => Some(before@),
                None => None,
            },
            line@,
        ),
{
    match previous {
        Some(before) => {
            if same_line(before, line) {
                return true;
            }
            takes_bytes(before, 5) && takes_bytes(line, 5) && (begins(before, line) || begins(
                line,
                before,
            ))
        },
        None => false,
    }
}

/// Whether every character of a line is a digit, whether every one is a
/// letter or a digit of ASCII, and whether every one is a capital letter of
/// ASCII.
pub fn classify_line(line: &Vec<char>) -> (kinds: (bool, bool, bool))
    ensures
        kinds.0 == all_ascii_digits(line@),
        kinds.1 == all_ascii_alphanumeric(line@),
        kinds.2 == all_ascii_uppercase(line@),
{
    let n: usize = line.len();
    let mut digits = true;
    let mut alphanumeric = true;
    let mut uppercase = true;
    let mut i: usize = 0;
    while i < n
        invariant
            i <= n == line.len(),
            digits == forall|k: int| 0 <= k < i ==> is_digit(#[trigger] line@[k]),
            alphanumeric == forall|k: int|
                0 <= k < i ==> is_ascii_alphanumeric(#[trigger] line@[k]),
            uppercase == forall|k: int| 0 <= k < i ==> 'A' <= #[trigger] line@[k] <= 'Z',
        decreases n - i,
    {
        let c: char = line[i];
        let digit = is_ascii_digit(c);
        let capital = c >= 'A' && c <= 'Z';
        let small = c >= 'a' && c <= 'z';
        if !digit {
            assert(!is_digit(line@[i as int]));
            digits = false;
        }
        if !(digit || capital || small) {
            assert(!is_ascii_alphanumeric(line@[i as int]));
            alphanumeric = false;
        }
        if !capital {
            assert(!('A' <= line@[i as int] <= 'Z'));
            uppercase = false;
        }
        i += 1;
    }
    (digits, alphanumeric, uppercase)
}

/// Whether a line is noise that is left out: short noise, or noise in
/// capitals.
pub fn is_line_noise(line: &Vec<char>) -> (noise: bool)
    ensures
        noise == (is_short_noise(line@) || is_uppercase_noise(line@)),
{
    let n: usize = line.len();
    let kinds = classify_line(line);
    let marked = n > 0 && (line[0] == '#' || line[0] == '-' || line[0] == '!');
    if n <= 3 && !marked {
        let meaningful = kinds.0 || (takes_bytes(line, 2) && kinds.1);
        if !meaningful {
            return true;
        }
    }
    n <= 5 && kinds.2 && !(n > 0 && line[0] == '#')
}

/// The line as it is written, and whether it is a heading.
pub fn write_form(line: &Vec<char>) -> (form: (Vec<char>, bool))
    ensures
        form.0@ == written_form(line@),
        form.1 == (heading_of(line@) is Some),
{
    if line.len() > 0 && line[0] == '+' {
        let mut rest: Vec<char> = Vec::new();
        let mut i: usize = 1;
        while i < line.len()
            invariant
                1 <= i <= line.len(),
                rest@ == line@.subrange(1, i as int),
            decreases line.len() - i,
        {
            rest.push(line[i]);
            assert(rest@ =~= line@.subrange(1, i as int + 1));
            i += 1;
        }
        assert(line@.subrange(1, line.len() as int) =~= line@.drop_first());
        let text = trim_chars(&rest);
        if takes_bytes(&text, 2) {
            let mut marked: Vec<char> = Vec::new();
            marked.push('#');
            marked.push('#');
            marked.push(' ');
            assert(marked@ =~= seq!['#', '#', ' ']);
            append(&mut marked, &text);
            return (trim_chars(&marked), true);
        }
    }
    (trim_chars(line), false)
}

impl Normalizer {
    /// The state before the first line.
    pub fn new() -> (state: Self)
        ensures
            state@ == untouched(),
    {
        Normalizer { result: Vec::new(), blanks: 0, previous: None, first_content: true }
    }

    /// Takes the next line.
    pub fn take_line(&mut self, raw: &Vec<char>)
        requires
            old(self).blanks <= 2,
        ensures
            final(self)@ == after_line(old(self)@, raw@),
            final(self).blanks <= 2,
    {
        let line = trim_chars(raw);
        if line.len() == 0 {
            if self.blanks < 1 {
                self.result.push('\n');
            }
            if self.blanks < 2 {
                self.blanks = self.blanks + 1;
            }
            return;
        }
        if self.first_content && line_is_page_number(&line) {
            return;
        }
        if line_is_furigana(&line) {
            return;
        }
        let form = write_form(&line);
        if form.1 {
            leave_blank_line(&mut self.result);
        }
        let written = form.0;
        if is_repeat(&self.previous, &written) || is_line_noise(&written) {
            return;
        }
        self.blanks = 0;
        self.first_content = false;
        begin_line(&mut self.result);
        append(&mut self.result, &written);
        self.previous = Some(written);
    }
}

/// Taking the first of some lines and then the others is taking them all.
pub proof fn lemma_after_first_line(state: Tidied, first: Seq<char>, others: Seq<Seq<char>>)
    ensures
        after_lines(state, seq![first] + others) == after_lines(after_line(state, first), others),
{
    let lines = seq![first] + others;
    assert(lines.first() == first);
    assert(lines.drop_first() =~= others);
}

/// The tidied characters of a text.
pub fn normalize_chars(md: &Vec<char>) -> (tidy: Vec<char>)
    ensures
        tidy@ == normalized(md@),
{
    let n: usize = md.len();
    let mut state = Normalizer::new();
    let mut current: Vec<char> = Vec::new();
    let mut i: usize = 0;
    assert(md@.skip(0) =~= md@);
    while i < n
        invariant
            i <= n == md.len(),
            state.blanks <= 2,
            after_lines(untouched(), split_lines(md@)) == after_lines(
                state@,
                lines_from(md@.skip(i as int), current@),
            ),
        decreases n - i,
    {
        let c: char = md[i];
        proof {
            let rest = md@.skip(i as int);
            assert(rest[0] == c);
            assert(rest.drop_first() =~= md@.skip(i as int + 1));
        }
        if c == '\n' {
            let m: usize = current.len();
            if m > 0 && current[m - 1] == '\r' {
                current.pop();
            }
            proof {
                lemma_after_first_line(
                    state@,
                    current@,
                    lines_from(md@.skip(i as int + 1), Seq::empty()),
                );
            }
            state.take_line(&current);
            current = Vec::new();
        } else {
            current.push(c);
        }
        i += 1;
    }
    if current.len() > 0 {
        proof {
            lemma_after_first_line(state@, current@, Seq::empty());
            assert(seq![current@] + Seq::<Seq<char>>::empty() =~= seq![current@]);
        }
        state.take_line(&current);
    }
    let mut tidy = state.result;
    begin_line(&mut tidy);
    tidy
}

} // verus!
