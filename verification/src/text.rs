//! Texts as sequences of characters: trimming, reading a decimal number,
//! and writing the digits of a number.

use vstd::prelude::*;

verus! {

/// Whether `c` has the Unicode property White_Space, as `char::is_whitespace`
/// reports it.
pub uninterp spec fn is_whitespace(c: char) -> bool;

/// `s` without its leading whitespace.
pub open spec fn trim_start(s: Seq<char>) -> Seq<char>
    decreases s.len(),
{
    if s.len() > 0 && is_whitespace(s.first()) {
        trim_start(s.drop_first())
    } else {
        s
    }
}

/// `s` without its trailing whitespace.
pub open spec fn trim_end(s: Seq<char>) -> Seq<char>
    decreases s.len(),
{
    if s.len() > 0 && is_whitespace(s.last()) {
        trim_end(s.drop_last())
    } else {
        s
    }
}

/// `s` without leading and trailing whitespace.
pub open spec fn trimmed(s: Seq<char>) -> Seq<char> {
    trim_end(trim_start(s))
}

/// Calls `char::is_whitespace`; the result is the named property of `c`.
#[verifier::external_body]
fn char_is_whitespace(c: char) -> (w: bool)
    ensures
        w == is_whitespace(c),
{
    c.is_whitespace()
}

/// The lowercase form of a text, as `str::to_lowercase` gives it.
pub uninterp spec fn lowercase_of(s: Seq<char>) -> Seq<char>;

/// Calls `str::to_lowercase`; the result is the named lowercase form of the
/// text.
#[verifier::external_body]
pub(crate) fn to_lowercase(text: &str) -> (lower: String)
    ensures
        lower@ == lowercase_of(text@),
{
    text.to_lowercase()
}

/// Calls `String::push`, which appends `c` to the end of `s`.
#[verifier::external_body]
pub(crate) fn push_char(s: &mut String, c: char)
    ensures
        final(s)@ == old(s)@.push(c),
{
    s.push(c)
}

/// The characters of `s`, in order.
pub fn chars_of(s: &str) -> (v: Vec<char>)
    ensures
        v@ == s@,
{
    broadcast use vstd::string::group_string_axioms;

    let mut v: Vec<char> = Vec::new();
    for c in it: s.chars()
        invariant
            it.seq() == s@,
            v@ == s@.take(it.index() as int),
    {
        v.push(c);
    }
    assert(s@.take(s@.len() as int) =~= s@);
    v
}

/// Whether `s` begins with `prefix`.
pub open spec fn begins_with(s: Seq<char>, prefix: Seq<char>) -> bool {
    prefix.len() <= s.len() && s.take(prefix.len() as int) == prefix
}

/// Whether `c` is one of the ten decimal digits.
pub open spec fn is_digit(c: char) -> bool {
    '0' <= c <= '9'
}

/// The value of a decimal digit.
pub open spec fn digit_value(c: char) -> int {
    c as int - '0' as int
}

/// The decimal digit of value `d`.
pub open spec fn digit_char(d: int) -> char {
    (d + '0' as int) as char
}

/// Whether every character of `s` is a decimal digit.
pub open spec fn all_digits(s: Seq<char>) -> bool {
    forall|i: int| 0 <= i < s.len() ==> is_digit(#[trigger] s[i])
}

/// The number that a sequence of decimal digits writes.
pub open spec fn decimal_value(digits: Seq<char>) -> int
    decreases digits.len(),
{
    if digits.len() == 0 {
        0
    } else {
        10 * decimal_value(digits.drop_last()) + digit_value(digits.last())
    }
}

/// The number that `s` writes in decimal, if it fits in 32 bits: an optional
/// plus sign and then one digit or more, with nothing before or after.
pub open spec fn decimal_number(s: Seq<char>) -> Option<u32> {
    let digits = if s.len() > 0 && s[0] == '+' {
        s.drop_first()
    } else {
        s
    };
    if digits.len() > 0 && all_digits(digits) && decimal_value(digits) <= u32::MAX {
        Some(decimal_value(digits) as u32)
    } else {
        None
    }
}

/// The decimal digits of `n`, without leading zeros.
pub open spec fn decimal_digits(n: nat) -> Seq<char>
    decreases n,
{
    if n < 10 {
        seq![digit_char(n as int)]
    } else {
        decimal_digits(n / 10).push(digit_char((n % 10) as int))
    }
}

/// A prefix of a digit sequence writes no larger a number than the whole.
pub proof fn lemma_decimal_value_prefix(digits: Seq<char>, k: int)
    requires
        all_digits(digits),
        0 <= k <= digits.len(),
    ensures
        0 <= decimal_value(digits.take(k)) <= decimal_value(digits),
    decreases digits.len(),
{
    if digits.len() == 0 {
        assert(digits.take(k) =~= digits);
    } else if k == digits.len() {
        assert(digits.take(k) =~= digits);
        lemma_decimal_value_prefix(digits.drop_last(), k - 1);
        assert(digits.drop_last().take(k - 1) =~= digits.drop_last());
        assert(is_digit(digits[digits.len() - 1]));
    } else {
        lemma_decimal_value_prefix(digits.drop_last(), k);
        assert(digits.drop_last().take(k) =~= digits.take(k));
        assert(is_digit(digits[digits.len() - 1]));
        lemma_decimal_value_prefix(digits.drop_last(), digits.len() - 1);
        assert(digits.drop_last().take(digits.len() - 1) =~= digits.drop_last());
    }
}

/// The digits of a number are digits, one at least, and write that number.
pub proof fn lemma_decimal_digits_value(n: nat)
    ensures
        all_digits(decimal_digits(n)),
        decimal_digits(n).len() > 0,
        decimal_value(decimal_digits(n)) == n,
    decreases n,
{
    if n < 10 {
        let s = decimal_digits(n);
        assert(s.drop_last() =~= Seq::<char>::empty());
        assert(decimal_value(s.drop_last()) == 0);
    } else {
        lemma_decimal_digits_value(n / 10);
        let s = decimal_digits(n);
        assert(s.drop_last() =~= decimal_digits(n / 10));
    }
}

/// The decimal text of a number reads as that number: writing a number of
/// 32 bits and reading the digits gives the number back.
pub proof fn law_decimal_text_round_trip(n: u32)
    ensures
        decimal_number(decimal_digits(n as nat)) == Some(n),
{
    lemma_decimal_digits_value(n as nat);
    assert(is_digit(decimal_digits(n as nat)[0]));
}

/// Whether `start` and `end` bound what is left of a text once the blank
/// characters at its two ends are removed, where `blank` tells of each
/// character whether it is blank. For a text of blank characters only, both
/// bounds are the length of the text.
pub open spec fn is_trim_range(blank: Seq<bool>, start: int, end: int) -> bool {
    &&& 0 <= start <= end <= blank.len()
    &&& forall|i: int| 0 <= i < start ==> blank[i]
    &&& forall|i: int| end <= i < blank.len() ==> blank[i]
    &&& start < end ==> !blank[start] && !blank[end - 1]
    &&& start == end ==> start == blank.len()
}

/// Whether `blank` tells of each character of `s` whether it is whitespace.
pub open spec fn marks_whitespace(blank: Seq<bool>, s: Seq<char>) -> bool {
    blank.len() == s.len() && forall|i: int|
        0 <= i < s.len() ==> blank[i] == is_whitespace(#[trigger] s[i])
}

/// A text whose first `k` characters are whitespace, and whose next
/// character is not, is without its leading whitespace from `k` on.
pub proof fn lemma_trim_start_at(s: Seq<char>, k: int)
    requires
        0 <= k <= s.len(),
        forall|i: int| 0 <= i < k ==> is_whitespace(#[trigger] s[i]),
        k < s.len() ==> !is_whitespace(s[k]),
    ensures
        trim_start(s) == s.subrange(k, s.len() as int),
    decreases k,
{
    if k == 0 {
        assert(s.subrange(0, s.len() as int) =~= s);
    } else {
        let rest = s.drop_first();
        assert forall|i: int| 0 <= i < k - 1 implies is_whitespace(#[trigger] rest[i]) by {
            assert(rest[i] == s[i + 1]);
        }
        lemma_trim_start_at(rest, k - 1);
        assert(rest.subrange(k - 1, rest.len() as int) =~= s.subrange(k, s.len() as int));
        assert(is_whitespace(s[0]));
    }
}

/// A text whose characters from `k` on are whitespace, and whose character
/// before is not, is without its trailing whitespace up to `k`.
pub proof fn lemma_trim_end_at(s: Seq<char>, k: int)
    requires
        0 <= k <= s.len(),
        forall|i: int| k <= i < s.len() ==> is_whitespace(#[trigger] s[i]),
        k > 0 ==> !is_whitespace(s[k - 1]),
    ensures
        trim_end(s) == s.subrange(0, k),
    decreases s.len() - k,
{
    if k == s.len() {
        assert(s.subrange(0, k) =~= s);
    } else {
        let rest = s.drop_last();
        assert forall|i: int| k <= i < rest.len() implies is_whitespace(#[trigger] rest[i]) by {
            assert(rest[i] == s[i]);
        }
        lemma_trim_end_at(rest, k);
        assert(rest.subrange(0, k) =~= s.subrange(0, k));
        assert(is_whitespace(s[s.len() - 1]));
    }
}

/// The bounds that the marks of whitespace give are those of the trimmed
/// text.
pub proof fn lemma_trim_range_trims(s: Seq<char>, blank: Seq<bool>, start: int, end: int)
    requires
        marks_whitespace(blank, s),
        is_trim_range(blank, start, end),
    ensures
        s.subrange(start, end) == trimmed(s),
{
    assert forall|i: int| 0 <= i < start implies is_whitespace(#[trigger] s[i]) by {
        assert(blank[i]);
    }
    lemma_trim_start_at(s, start);
    let rest = s.subrange(start, s.len() as int);
    assert forall|i: int| end - start <= i < rest.len() implies is_whitespace(
        #[trigger] rest[i],
    ) by {
        assert(rest[i] == s[i + start]);
        assert(blank[i + start]);
    }
    if end - start > 0 {
        assert(rest[end - start - 1] == s[end - 1]);
    }
    lemma_trim_end_at(rest, end - start);
    assert(rest.subrange(0, end - start) =~= s.subrange(start, end));
}

/// The bounds of what is left of a text once the blank characters at its
/// two ends are removed, given of each character whether it is blank.
pub fn trim_range(blank: &[bool]) -> (r: (usize, usize))
    ensures
        is_trim_range(blank@, r.0 as int, r.1 as int),
{
    let n: usize = blank.len();
    let mut start: usize = 0;
    while start < n && blank[start]
        invariant
            start <= n == blank.len(),
            forall|i: int| 0 <= i < start ==> blank@[i],
        decreases n - start,
    {
        start += 1;
    }
    let mut end: usize = n;
    while end > start && blank[end - 1]
        invariant
            start <= end <= n == blank.len(),
            forall|i: int| end <= i < n ==> blank@[i],
        decreases end,
    {
        end -= 1;
    }
    if start == end {
        (n, n)
    } else {
        (start, end)
    }
}

/// Of each character whether it is whitespace.
pub fn whitespace_marks(chars: &Vec<char>) -> (blank: Vec<bool>)
    ensures
        marks_whitespace(blank@, chars@),
{
    let n: usize = chars.len();
    let mut blank: Vec<bool> = Vec::new();
    let mut i: usize = 0;
    while i < n
        invariant
            i <= n == chars.len(),
            blank@.len() == i,
            forall|k: int| 0 <= k < i ==> blank@[k] == is_whitespace(#[trigger] chars@[k]),
        decreases n - i,
    {
        blank.push(char_is_whitespace(chars[i]));
        i += 1;
    }
    blank
}

/// The start and the end of what is left of `chars` once leading and trailing
/// whitespace is removed.
pub fn trim_bounds(chars: &Vec<char>) -> (b: (usize, usize))
    ensures
        b.0 <= b.1 <= chars.len(),
        chars@.subrange(b.0 as int, b.1 as int) == trimmed(chars@),
{
    let blank = whitespace_marks(chars);
    let b = trim_range(blank.as_slice());
    proof {
        lemma_trim_range_trims(chars@, blank@, b.0 as int, b.1 as int);
    }
    b
}

/// The text that the characters spell.
pub fn string_of(chars: &Vec<char>, start: usize, end: usize) -> (s: String)
    requires
        start <= end <= chars.len(),
    ensures
        s@ == chars@.subrange(start as int, end as int),
{
    let mut s = String::new();
    let mut i: usize = start;
    while i < end
        invariant
            start <= i <= end <= chars.len(),
            s@ == chars@.subrange(start as int, i as int),
        decreases end - i,
    {
        push_char(&mut s, chars[i]);
        assert(chars@.subrange(start as int, i as int).push(chars@[i as int]) =~= chars@.subrange(
            start as int,
            i as int + 1,
        ));
        i += 1;
    }
    s
}

/// The characters without leading and trailing whitespace.
pub fn trim_chars(chars: &Vec<char>) -> (v: Vec<char>)
    ensures
        v@ == trimmed(chars@),
{
    let b = trim_bounds(chars);
    let mut v: Vec<char> = Vec::new();
    let mut i: usize = b.0;
    while i < b.1
        invariant
            b.0 <= i <= b.1 <= chars.len(),
            v@ == chars@.subrange(b.0 as int, i as int),
        decreases b.1 - i,
    {
        v.push(chars[i]);
        assert(v@ =~= chars@.subrange(b.0 as int, i as int + 1));
        i += 1;
    }
    v
}

/// The characters of `text` without leading and trailing whitespace.
pub fn trimmed_chars(text: &str) -> (v: Vec<char>)
    ensures
        v@ == trimmed(text@),
{
    let chars = chars_of(text);
    trim_chars(&chars)
}

/// `text` without leading and trailing whitespace.
pub fn trim_text(text: &str) -> (t: String)
    ensures
        t@ == trimmed(text@),
{
    let chars = chars_of(text);
    let b = trim_bounds(&chars);
    string_of(&chars, b.0, b.1)
}

/// Reads a decimal number: an optional plus sign, then digits only. Returns
/// `None` for any other text and for a number that does not fit in 32 bits.
pub fn parse_decimal(text: &str) -> (n: Option<u32>)
    ensures
        n == decimal_number(text@),
{
    let chars = chars_of(text);
    let len: usize = chars.len();
    let first: usize = if len > 0 && chars[0] == '+' { 1 } else { 0 };
    let ghost digits = if first == 1 { chars@.drop_first() } else { chars@ };
    assert(digits =~= chars@.subrange(first as int, len as int));
    if first == len {
        return None;
    }
    let mut value: u64 = 0;
    let mut i: usize = first;
    while i < len
        invariant
            first <= i <= len == chars.len(),
            chars@ == text@,
            digits.len() > 0,
            digits == (if text@.len() > 0 && text@[0] == '+' {
                text@.drop_first()
            } else {
                text@
            }),
            digits == chars@.subrange(first as int, len as int),
            all_digits(digits.take(i - first)),
            value == decimal_value(digits.take(i - first)),
            value <= u32::MAX,
        decreases len - i,
    {
        let c: char = chars[i];
        if !(c >= '0' && c <= '9') {
            assert(!is_digit(digits[i - first]));
            return None;
        }
        let d: u64 = (c as u32 - '0' as u32) as u64;
        let next: u64 = value * 10 + d;
        proof {
            let longer = digits.take(i - first + 1);
            assert(longer.drop_last() =~= digits.take(i - first));
            assert(longer.last() == c);
            assert(next == decimal_value(longer));
            assert forall|j: int| 0 <= j < longer.len() implies is_digit(#[trigger] longer[j]) by {
                if j < i - first {
                    assert(digits.take(i - first)[j] == longer[j]);
                }
            }
        }
        if next > u32::MAX as u64 {
            proof {
                if all_digits(digits) {
                    lemma_decimal_value_prefix(digits, i - first + 1);
                }
            }
            return None;
        }
        value = next;
        i += 1;
    }
    assert(digits.take(len - first) =~= digits);
    Some(value as u32)
}

/// The decimal digits of `n`, without leading zeros.
pub fn decimal_chars(n: u128) -> (digits: Vec<char>)
    ensures
        digits@ == decimal_digits(n as nat),
{
    let mut reversed: Vec<char> = Vec::new();
    let mut rest: u128 = n;
    while rest >= 10
        invariant
            decimal_digits(rest as nat) + reversed@.reverse() == decimal_digits(n as nat),
        decreases rest,
    {
        let c: char = digit_of((rest % 10) as u32);
        proof {
            let before = reversed@;
            let after = reversed@.push(c);
            assert(after.reverse() =~= seq![c] + before.reverse());
            assert(decimal_digits((rest / 10) as nat) + after.reverse() =~= decimal_digits(
                rest as nat,
            ) + before.reverse());
        }
        reversed.push(c);
        rest = rest / 10;
    }
    proof {
        let before = reversed@;
        let after = reversed@.push(digit_char(rest as int));
        assert(after.reverse() =~= decimal_digits(rest as nat) + before.reverse());
    }
    reversed.push(digit_of(rest as u32));
    let mut digits: Vec<char> = Vec::new();
    let mut i: usize = reversed.len();
    while i > 0
        invariant
            i <= reversed.len(),
            digits@ == reversed@.reverse().take(reversed.len() - i),
        decreases i,
    {
        i -= 1;
        digits.push(reversed[i]);
        assert(digits@ =~= reversed@.reverse().take(reversed.len() - i));
    }
    assert(reversed@.reverse().take(reversed.len() as int) =~= reversed@.reverse());
    digits
}

/// The decimal text of `n`, without leading zeros.
pub fn decimal_text(n: u32) -> (s: String)
    ensures
        s@ == decimal_digits(n as nat),
{
    let digits = decimal_chars(n as u128);
    assert(digits@.subrange(0, digits.len() as int) =~= digits@);
    string_of(&digits, 0, digits.len())
}

/// The character of a decimal digit.
pub fn digit_of(d: u32) -> (c: char)
    requires
        d < 10,
    ensures
        c == digit_char(d as int),
{
    if d == 0 {
        '0'
    } else if d == 1 {
        '1'
    } else if d == 2 {
        '2'
    } else if d == 3 {
        '3'
    } else if d == 4 {
        '4'
    } else if d == 5 {
        '5'
    } else if d == 6 {
        '6'
    } else if d == 7 {
        '7'
    } else if d == 8 {
        '8'
    } else {
        '9'
    }
}

} // verus!
