//! Text as sequences of characters: numerals, lines, fields and trimming.

use vstd::prelude::*;
use vstd::slice::slice_subrange;

verus! {

/// `String::push` appends the character to the end of the string.
pub assume_specification[ String::push ](text: &mut String, character: char)
    ensures
        final(text)@ == old(text)@.push(character),
;

/// The characters of an optional text.
pub open spec fn optional_text(text: Option<String>) -> Option<Seq<char>> {
    match text {
        Some(text) => Some(text@),
        None => None,
    }
}

/// The characters of each text.
pub open spec fn texts(strings: Seq<String>) -> Seq<Seq<char>> {
    strings.map_values(|text: String| text@)
}

/// The characters of the text.
pub fn chars_of(text: &str) -> (chars: Vec<char>)
    ensures
        chars@ == text@,
{
    let mut chars: Vec<char> = Vec::new();
    for c in iter: text.chars()
        invariant
            chars@ == text@.take(iter.index()),
            iter.seq() == text@,
    {
        chars.push(c);
    }
    chars
}

/// The text with the given characters.
pub fn text_of(chars: &[char]) -> (text: String)
    ensures
        text@ == chars@,
{
    let mut text = String::new();
    let mut index: usize = 0;
    while index < chars.len()
        invariant
            index <= chars.len(),
            text@ == chars@.take(index as int),
        decreases chars.len() - index,
    {
        text.push(chars[index]);
        index += 1;
    }
    text
}

/// The digit with the given value, lower case above nine.
pub open spec fn digit(value: nat) -> char {
    if value < 10 {
        (value + 48) as char
    } else {
        (value + 87) as char
    }
}

/// The numeral of `value` in the given base, without leading zeros.
pub open spec fn numeral(value: nat, base: nat) -> Seq<char>
    decreases value,
{
    if base < 2 {
        Seq::empty()
    } else if value < base {
        seq![digit(value)]
    } else {
        proof {
            assert(value / base < value) by (nonlinear_arith)
                requires
                    value >= base,
                    base >= 2,
            ;
        }
        numeral(value / base, base).push(digit(value % base))
    }
}

/// Appends the numeral of `value`.
pub fn append_numeral(text: &mut String, value: u128, base: u8)
    requires
        2 <= base <= 16,
    ensures
        final(text)@ == old(text)@ + numeral(value as nat, base as nat),
    decreases value,
{
    let ghost before = text@;
    let rest: u128 = value / base as u128;
    let last: u8 = (value % base as u128) as u8;
    proof {
        assert(value % (base as u128) < base) by (nonlinear_arith)
            requires
                base >= 2,
        ;
        assert(value >= base ==> value / (base as u128) < value) by (nonlinear_arith)
            requires
                base >= 2,
        ;
        assert(value < base ==> value % (base as u128) == value) by (nonlinear_arith)
            requires
                base >= 2,
        ;
    }
    if value >= base as u128 {
        append_numeral(text, rest, base);
    }
    let ghost prefix = text@;
    if last < 10 {
        text.push((last + 48) as char);
    } else {
        text.push((last + 87) as char);
    }
    proof {
        assert(text@ == prefix.push(digit(last as nat)));
        assert(text@ == before + numeral(value as nat, base as nat));
    }
}

/// The decimal numeral of a number, with a minus sign when it is negative.
pub open spec fn integer_text(value: int) -> Seq<char> {
    if value < 0 {
        seq!['-'] + numeral((-value) as nat, 10)
    } else {
        numeral(value as nat, 10)
    }
}

/// Appends the decimal numeral of `value`.
pub fn append_integer(text: &mut String, value: i64)
    ensures
        final(text)@ == old(text)@ + integer_text(value as int),
{
    let ghost before = text@;
    if value < 0 {
        text.push('-');
        append_numeral(text, (-(value as i128)) as u128, 10);
        assert(text@ == before + (seq!['-'] + numeral((-value) as nat, 10)));
    } else {
        append_numeral(text, value as u128, 10);
    }
}

/// The Unicode property White_Space.
pub open spec fn is_white_space(c: char) -> bool {
    ||| 0x09 <= c as u32 <= 0x0d
    ||| c as u32 == 0x20
    ||| c as u32 == 0x85
    ||| c as u32 == 0xa0
    ||| c as u32 == 0x1680
    ||| 0x2000 <= c as u32 <= 0x200a
    ||| c as u32 == 0x2028
    ||| c as u32 == 0x2029
    ||| c as u32 == 0x202f
    ||| c as u32 == 0x205f
    ||| c as u32 == 0x3000
}

/// Whether the character is white space.
pub fn white_space(c: char) -> (result: bool)
    ensures
        result == is_white_space(c),
{
    let code: u32 = c as u32;
    (0x09 <= code && code <= 0x0d) || code == 0x20 || code == 0x85 || code == 0xa0 || code
        == 0x1680 || (0x2000 <= code && code <= 0x200a) || code == 0x2028 || code == 0x2029
        || code == 0x202f || code == 0x205f || code == 0x3000
}

/// The text without the white space in front.
pub open spec fn trimmed_start(text: Seq<char>) -> Seq<char>
    decreases text.len(),
{
    if text.len() > 0 && is_white_space(text[0]) {
        trimmed_start(text.drop_first())
    } else {
        text
    }
}

/// The text without the white space behind.
pub open spec fn trimmed_end(text: Seq<char>) -> Seq<char>
    decreases text.len(),
{
    if text.len() > 0 && is_white_space(text.last()) {
        trimmed_end(text.drop_last())
    } else {
        text
    }
}

/// The text without the white space on both sides.
pub open spec fn trimmed(text: Seq<char>) -> Seq<char> {
    trimmed_end(trimmed_start(text))
}

/// Removes the white space on both sides.
pub fn trim(text: &[char]) -> (result: &[char])
    ensures
        result@ == trimmed(text@),
{
    let mut start: usize = 0;
    assert(text@.skip(0) == text@);
    while start < text.len() && white_space(text[start])
        invariant
            start <= text.len(),
            trimmed_start(text@) == trimmed_start(text@.skip(start as int)),
        decreases text.len() - start,
    {
        assert(text@.skip(start as int).drop_first() == text@.skip(start + 1));
        start += 1;
    }
    let mut end: usize = text.len();
    assert(text@.subrange(start as int, end as int) == text@.skip(start as int));
    while start < end && white_space(text[end - 1])
        invariant
            start <= end <= text.len(),
            trimmed(text@) == trimmed_end(text@.subrange(start as int, end as int)),
        decreases end,
    {
        assert(text@.subrange(start as int, end as int).drop_last() == text@.subrange(
            start as int,
            end - 1,
        ));
        end -= 1;
    }
    slice_subrange(text, start, end)
}

/// Where the character first stands in the text, or the text's length.
pub open spec fn position(text: Seq<char>, c: char) -> nat
    decreases text.len(),
{
    if text.len() == 0 || text[0] == c {
        0
    } else {
        1 + position(text.drop_first(), c)
    }
}

/// What `position` means: the first place where the character stands.
pub proof fn lemma_position(text: Seq<char>, c: char)
    ensures
        position(text, c) <= text.len(),
        position(text, c) < text.len() ==> text[position(text, c) as int] == c,
        forall|i: int| 0 <= i < position(text, c) ==> text[i] != c,
    decreases text.len(),
{
    if text.len() > 0 && text[0] != c {
        lemma_position(text.drop_first(), c);
        assert forall|i: int| 0 <= i < position(text, c) implies text[i] != c by {
            if i > 0 {
                assert(text.drop_first()[i - 1] == text[i]);
            }
        }
    }
}

/// The first place where the character stands is the position.
pub proof fn lemma_position_unique(text: Seq<char>, c: char, at: nat)
    requires
        at <= text.len(),
        at < text.len() ==> text[at as int] == c,
        forall|i: int| 0 <= i < at ==> text[i] != c,
    ensures
        position(text, c) == at,
{
    lemma_position(text, c);
}

/// Finds the first place of the character, or the text's length.
pub fn find(text: &[char], c: char) -> (at: usize)
    ensures
        at == position(text@, c),
        at <= text.len(),
{
    let mut at: usize = 0;
    while at < text.len() && text[at] != c
        invariant
            at <= text.len(),
            forall|i: int| 0 <= i < at ==> text@[i] != c,
        decreases text.len() - at,
    {
        at += 1;
    }
    proof {
        lemma_position_unique(text@, c, at as nat);
    }
    at
}

/// A line with the carriage return before its line feed removed.
pub open spec fn without_carriage_return(line: Seq<char>) -> Seq<char> {
    if line.len() > 0 && line.last() == '\r' {
        line.drop_last()
    } else {
        line
    }
}

/// The first line, without its ending.
pub open spec fn first_line(text: Seq<char>) -> Seq<char> {
    let end = position(text, '\n');
    if end < text.len() {
        without_carriage_return(text.take(end as int))
    } else {
        text
    }
}

/// What follows the first line.
pub open spec fn after_first_line(text: Seq<char>) -> Seq<char> {
    let end = position(text, '\n');
    if end < text.len() {
        text.skip(end as int + 1)
    } else {
        Seq::empty()
    }
}

/// The lines of the text. A line ends at a line feed, or at a carriage return
/// followed by one; the last line may have no ending.
pub open spec fn lines(text: Seq<char>) -> Seq<Seq<char>>
    decreases text.len(),
{
    if text.len() == 0 {
        Seq::empty()
    } else {
        seq![first_line(text)] + lines(after_first_line(text))
    }
}

/// Splits the text behind its first line.
pub fn split_first_line(text: &[char]) -> (result: (&[char], &[char]))
    ensures
        result.0@ == first_line(text@),
        result.1@ == after_first_line(text@),
        text.len() > 0 ==> result.1.len() < text.len(),
{
    let end: usize = find(text, '\n');
    if end < text.len() {
        let rest = slice_subrange(text, end + 1, text.len());
        assert(rest@ == text@.skip(end + 1));
        let line = slice_subrange(text, 0, end);
        assert(line@ == text@.take(end as int));
        if line.len() > 0 && line[line.len() - 1] == '\r' {
            let shorter = slice_subrange(line, 0, line.len() - 1);
            assert(shorter@ == line@.drop_last());
            (shorter, rest)
        } else {
            (line, rest)
        }
    } else {
        let rest = slice_subrange(text, text.len(), text.len());
        assert(rest@ == Seq::<char>::empty());
        (text, rest)
    }
}

/// The value of a line `name: value`, both sides trimmed; nothing when the line
/// has no colon or another name.
pub open spec fn line_value(line: Seq<char>, name: Seq<char>) -> Option<Seq<char>> {
    let colon = position(line, ':');
    if colon < line.len() && trimmed(line.take(colon as int)) == name {
        Some(trimmed(line.skip(colon as int + 1)))
    } else {
        None
    }
}

/// The value of the first of the lines that gives one for the name.
pub open spec fn first_value(lines: Seq<Seq<char>>, name: Seq<char>) -> Option<Seq<char>>
    decreases lines.len(),
{
    if lines.len() == 0 {
        None
    } else if line_value(lines[0], name) is Some {
        line_value(lines[0], name)
    } else {
        first_value(lines.drop_first(), name)
    }
}

/// The value that the text gives for the name.
pub open spec fn field_value(text: Seq<char>, name: Seq<char>) -> Option<Seq<char>> {
    first_value(lines(text), name)
}

/// Whether the two texts are the same.
pub fn same_text(left: &[char], right: &[char]) -> (result: bool)
    ensures
        result == (left@ == right@),
{
    if left.len() != right.len() {
        return false;
    }
    let mut index: usize = 0;
    while index < left.len()
        invariant
            index <= left.len(),
            left.len() == right.len(),
            forall|i: int| 0 <= i < index ==> left@[i] == right@[i],
        decreases left.len() - index,
    {
        if left[index] != right[index] {
            return false;
        }
        index += 1;
    }
    assert(left@ == right@);
    true
}

/// Reads the value that the text gives for the name.
pub fn find_field(text: &str, name: &str) -> (value: Option<String>)
    ensures
        value is Some <==> field_value(text@, name@) is Some,
        value matches Some(found) ==> found@ == field_value(text@, name@).unwrap(),
{
    let chars = chars_of(text);
    let wanted = chars_of(name);
    let mut rest: &[char] = chars.as_slice();
    while rest.len() > 0
        invariant
            wanted@ == name@,
            field_value(text@, name@) == first_value(lines(rest@), name@),
        decreases rest.len(),
    {
        let (line, after) = split_first_line(rest);
        let colon: usize = find(line, ':');
        proof {
            assert(lines(rest@)[0] == line@);
            assert(lines(rest@).drop_first() == lines(after@));
        }
        if colon < line.len() {
            let left = slice_subrange(line, 0, colon);
            let right = slice_subrange(line, colon + 1, line.len());
            assert(left@ == line@.take(colon as int));
            assert(right@ == line@.skip(colon + 1));
            if same_text(trim(left), wanted.as_slice()) {
                return Some(text_of(trim(right)));
            }
        }
        rest = after;
    }
    None
}

/// Whether the needle stands somewhere in the text.
pub open spec fn occurs(text: Seq<char>, needle: Seq<char>) -> bool {
    exists|at: int|
        0 <= at && at + needle.len() <= text.len() && #[trigger] text.subrange(
            at,
            at + needle.len(),
        ) == needle
}

/// Whether the needle stands somewhere in the text.
pub fn contains_text(text: &[char], needle: &[char]) -> (result: bool)
    ensures
        result == occurs(text@, needle@),
{
    if needle.len() > text.len() {
        return false;
    }
    let last: usize = text.len() - needle.len();
    let mut at: usize = 0;
    while at <= last
        invariant
            last == text.len() - needle.len(),
            at <= last + 1,
            forall|i: int|
                0 <= i < at ==> #[trigger] text@.subrange(i, i + needle@.len()) != needle@,
        decreases last + 1 - at,
    {
        if same_text(slice_subrange(text, at, at + needle.len()), needle) {
            return true;
        }
        if at == last {
            return false;
        }
        at += 1;
    }
    false
}

/// The value of an ASCII decimal digit.
pub open spec fn digit_value(c: char) -> Option<nat> {
    if 48 <= c as u32 <= 57 {
        Some((c as u32 - 48) as nat)
    } else {
        None
    }
}

/// The number that a string of ASCII decimal digits denotes; nothing when there
/// is no digit or something else.
pub open spec fn digits_value(digits: Seq<char>) -> Option<nat>
    decreases digits.len(),
{
    if digits.len() == 0 {
        None
    } else if digits.len() == 1 {
        digit_value(digits[0])
    } else {
        match (digits_value(digits.drop_last()), digit_value(digits.last())) {
            (Some(front), Some(last)) => Some(front * 10 + last),
            _ => None,
        }
    }
}

/// The 32-bit number that the text denotes: an optional sign, then at least one
/// ASCII decimal digit; nothing for other texts and for numbers out of range.
pub open spec fn i32_value(text: Seq<char>) -> Option<int> {
    let signed = text.len() > 0 && (text[0] == '-' || text[0] == '+');
    let digits = if signed {
        text.drop_first()
    } else {
        text
    };
    match digits_value(digits) {
        None => None,
        Some(magnitude) => {
            let value = if signed && text[0] == '-' {
                -magnitude
            } else {
                magnitude as int
            };
            if i32::MIN <= value <= i32::MAX {
                Some(value)
            } else {
                None
            }
        },
    }
}

/// The largest number that `parse_digits` tells apart from larger ones.
const DIGITS_CAP: u64 = 0x1_0000_0000;

/// Reads a string of ASCII decimal digits; every number from `DIGITS_CAP` on
/// comes back as `DIGITS_CAP`.
fn parse_digits(digits: &[char]) -> (value: Option<u64>)
    ensures
        value is Some <==> digits_value(digits@) is Some,
        value matches Some(number) ==> number == if digits_value(digits@).unwrap() < DIGITS_CAP {
            digits_value(digits@).unwrap()
        } else {
            DIGITS_CAP as nat
        },
{
    if digits.len() == 0 {
        return None;
    }
    let mut total: u64 = 0;
    let mut index: usize = 0;
    while index < digits.len()
        invariant
            index <= digits.len(),
            digits.len() > 0,
            index == 0 ==> total == 0,
            index > 0 ==> digits_value(digits@.take(index as int)) is Some,
            index > 0 ==> total == if digits_value(digits@.take(index as int)).unwrap()
                < DIGITS_CAP {
                digits_value(digits@.take(index as int)).unwrap()
            } else {
                DIGITS_CAP as nat
            },
        decreases digits.len() - index,
    {
        let code: u32 = digits[index] as u32;
        proof {
            let next = digits@.take(index + 1);
            assert(next.drop_last() == digits@.take(index as int));
            assert(next.last() == digits@[index as int]);
        }
        if code < 48 || code > 57 {
            proof {
                assert(digits_value(digits@.take(index + 1)) is None);
                if digits_value(digits@) is Some {
                    lemma_digits_prefix(digits@, index + 1);
                }
            }
            return None;
        }
        let larger: u64 = total * 10 + (code - 48) as u64;
        total = if larger < DIGITS_CAP {
            larger
        } else {
            DIGITS_CAP
        };
        index += 1;
    }
    assert(digits@.take(index as int) == digits@);
    Some(total)
}

/// Every non-empty front part of a string of digits is one.
proof fn lemma_digits_prefix(digits: Seq<char>, end: int)
    requires
        0 < end <= digits.len(),
        digits_value(digits) is Some,
    ensures
        digits_value(digits.take(end)) is Some,
    decreases digits.len(),
{
    if end == digits.len() {
        assert(digits.take(end) == digits);
    } else {
        lemma_digits_prefix(digits.drop_last(), end);
        assert(digits.drop_last().take(end) == digits.take(end));
    }
}

/// Reads a 32-bit number.
pub fn parse_i32(text: &str) -> (value: Option<i32>)
    ensures
        value is Some <==> i32_value(text@) is Some,
        value matches Some(number) ==> number == i32_value(text@).unwrap(),
{
    let chars = chars_of(text);
    let all = chars.as_slice();
    let signed: bool = all.len() > 0 && (all[0] == '-' || all[0] == '+');
    let negative: bool = all.len() > 0 && all[0] == '-';
    let digits = if signed {
        slice_subrange(all, 1, all.len())
    } else {
        all
    };
    assert(signed ==> digits@ == text@.drop_first());
    match parse_digits(digits) {
        None => None,
        Some(magnitude) => {
            if negative {
                if magnitude <= 0x8000_0000 {
                    Some((-(magnitude as i64)) as i32)
                } else {
                    None
                }
            } else if magnitude <= 0x7fff_ffff {
                Some(magnitude as i32)
            } else {
                None
            }
        },
    }
}

/// A numeral is a string of digits that denotes its number.
pub proof fn lemma_numeral_value(value: nat)
    ensures
        numeral(value, 10).len() > 0,
        digits_value(numeral(value, 10)) == Some(value),
        48 <= numeral(value, 10)[0] as u32 <= 57,
    decreases value,
{
    if value >= 10 {
        lemma_numeral_value(value / 10);
        let front = numeral(value / 10, 10);
        let all = numeral(value, 10);
        assert(all.drop_last() == front);
        assert(all.last() == digit(value % 10));
        assert(all[0] == front[0]);
    }
}

/// The number that a character stands for: its distance from `0`, or ten more
/// than its distance from `a`.
pub open spec fn character_value(c: char) -> int {
    if c as int <= '9' as int {
        c as int - '0' as int
    } else {
        c as int - 'a' as int + 10
    }
}

/// The number that a row of digits denotes in the base, the first digit weighing
/// most.
pub open spec fn written_value(text: Seq<char>, base: int) -> int
    decreases text.len(),
{
    if text.len() == 0 {
        0
    } else {
        written_value(text.drop_last(), base) * base + character_value(text.last())
    }
}

/// Whether the character is a digit of the base.
pub open spec fn is_digit_of(c: char, base: int) -> bool {
    ||| '0' <= c <= '9' && character_value(c) < base
    ||| 'a' <= c <= 'f' && character_value(c) < base
}

/// A numeral denotes its number: it is a row of digits of the base, without a
/// leading zero unless it is zero, and the digits make up the number.
pub proof fn numerals_denote_their_number(value: nat, base: nat)
    requires
        2 <= base <= 16,
    ensures
        written_value(numeral(value, base), base as int) == value,
        numeral(value, base).len() >= 1,
        forall|i: int|
            0 <= i < numeral(value, base).len() ==> is_digit_of(
                #[trigger] numeral(value, base)[i],
                base as int,
            ),
        value > 0 ==> numeral(value, base)[0] != '0',
        value == 0 ==> numeral(value, base) == seq!['0'],
    decreases value,
{
    reveal_with_fuel(written_value, 2);
    let all = numeral(value, base);
    if value < base {
        assert(all == seq![digit(value)]);
        assert(all.drop_last().len() == 0);
    } else {
        let rest = value / base;
        assert(0 < rest < value && rest * base + value % base == value && 0 <= value % base < base)
            by (nonlinear_arith)
            requires
                value >= base,
                base >= 2,
                rest == value / base,
        ;
        numerals_denote_their_number(rest, base);
        let front = numeral(rest, base);
        assert(all == front.push(digit(value % base)));
        assert(all.drop_last() == front);
        assert(all[0] == front[0]);
        assert forall|i: int| 0 <= i < all.len() implies is_digit_of(
            #[trigger] all[i],
            base as int,
        ) by {
            if i < front.len() {
                assert(all[i] == front[i]);
            }
        }
    }
}

/// Different numbers have different numerals.
pub proof fn numerals_tell_numbers_apart(left: nat, right: nat, base: nat)
    requires
        2 <= base <= 16,
        numeral(left, base) == numeral(right, base),
    ensures
        left == right,
{
    numerals_denote_their_number(left, base);
    numerals_denote_their_number(right, base);
}

/// A negative number is written with a minus sign before its magnitude, any other
/// without a sign.
pub proof fn negative_numbers_have_a_sign(value: int)
    ensures
        value >= 0 ==> integer_text(value).len() > 0 && written_value(integer_text(value), 10)
            == value && integer_text(value)[0] != '-',
        value < 0 ==> integer_text(value).len() > 1 && integer_text(value)[0] == '-'
            && written_value(integer_text(value).drop_first(), 10) == -value,
{
    if value < 0 {
        numerals_denote_their_number((-value) as nat, 10);
        assert(integer_text(value).drop_first() == numeral((-value) as nat, 10));
    } else {
        numerals_denote_their_number(value as nat, 10);
        assert(is_digit_of(numeral(value as nat, 10)[0], 10));
    }
}

/// A decimal digit is one of the ten characters, and has its value.
proof fn lemma_decimal_digit(c: char)
    ensures
        digit_value(c) is Some <==> is_digit_of(c, 10),
        digit_value(c) matches Some(value) ==> value == character_value(c),
{
}

/// A row of decimal digits, and nothing else, is read as the number that it
/// denotes.
pub proof fn digits_denote_their_number(digits: Seq<char>)
    ensures
        digits_value(digits) is Some <==> digits.len() > 0 && forall|i: int|
            0 <= i < digits.len() ==> is_digit_of(#[trigger] digits[i], 10),
        digits_value(digits) matches Some(value) ==> value == written_value(digits, 10),
    decreases digits.len(),
{
    reveal_with_fuel(written_value, 2);
    if digits.len() > 0 {
        lemma_decimal_digit(digits.last());
    }
    if digits.len() == 1 {
        assert(digits.drop_last().len() == 0);
        assert(digits.last() == digits[0]);
    } else if digits.len() > 1 {
        let front = digits.drop_last();
        digits_denote_their_number(front);
        assert(digits.last() == digits[digits.len() - 1]);
        assert forall|i: int| 0 <= i < front.len() implies #[trigger] front[i] == digits[i] by {}
        if digits_value(digits) is Some {
            assert(digits_value(front) is Some);
            assert(digit_value(digits.last()) is Some);
            assert forall|i: int| 0 <= i < digits.len() implies is_digit_of(
                #[trigger] digits[i],
                10,
            ) by {
                if i < front.len() {
                    assert(front[i] == digits[i]);
                } else {
                    assert(digits[i] == digits.last());
                }
            }
        } else {
            assert(digits_value(front) is None || digit_value(digits.last()) is None);
        }
    }
}

/// A 32-bit number is read from one or more decimal digits, with or without a
/// sign before them, when it is in range; from nothing else.
pub proof fn numbers_are_read_with_or_without_a_sign(digits: Seq<char>)
    requires
        digits.len() > 0 ==> digits[0] != '-' && digits[0] != '+',
    ensures
        i32_value(digits) is Some <==> digits_value(digits) is Some && written_value(digits, 10)
            <= i32::MAX,
        i32_value(seq!['+'] + digits) is Some <==> digits_value(digits) is Some && written_value(
            digits,
            10,
        ) <= i32::MAX,
        i32_value(seq!['-'] + digits) is Some <==> digits_value(digits) is Some && -written_value(
            digits,
            10,
        ) >= i32::MIN,
        i32_value(digits) matches Some(value) ==> value == written_value(digits, 10),
        i32_value(seq!['+'] + digits) matches Some(value) ==> value == written_value(digits, 10),
        i32_value(seq!['-'] + digits) matches Some(value) ==> value == -written_value(digits, 10),
{
    digits_denote_their_number(digits);
    assert((seq!['+'] + digits).drop_first() == digits);
    assert((seq!['-'] + digits).drop_first() == digits);
}

/// What is written is read back.
pub proof fn written_numbers_read_back(value: int)
    requires
        i32::MIN <= value <= i32::MAX,
    ensures
        i32_value(integer_text(value)) == Some(value),
{
    let magnitude = if value < 0 {
        -value
    } else {
        value
    };
    lemma_numeral_value(magnitude as nat);
    numerals_denote_their_number(magnitude as nat, 10);
    numbers_are_read_with_or_without_a_sign(numeral(magnitude as nat, 10));
}

/// Trimming takes white space, all of it and nothing else, from both ends: what
/// stands before and behind the result is white space, and the result neither
/// begins nor ends with it.
pub proof fn trimming_takes_white_space_off(text: Seq<char>) -> (ends: (int, int))
    ensures
        0 <= ends.0 <= ends.1 <= text.len(),
        trimmed(text) == text.subrange(ends.0, ends.1),
        forall|i: int| 0 <= i < ends.0 ==> is_white_space(#[trigger] text[i]),
        forall|i: int| ends.1 <= i < text.len() ==> is_white_space(#[trigger] text[i]),
        trimmed(text).len() > 0 ==> !is_white_space(trimmed(text)[0]) && !is_white_space(
            trimmed(text).last(),
        ),
{
    let start = lemma_trimmed_start(text);
    let rest = trimmed_start(text);
    let len = lemma_trimmed_end(rest);
    assert(text.skip(start).take(len) == text.subrange(start, start + len));
    assert forall|i: int| start + len <= i < text.len() implies is_white_space(
        #[trigger] text[i],
    ) by {
        assert(rest[i - start] == text[i]);
    }
    (start, start + len)
}

proof fn lemma_trimmed_start(text: Seq<char>) -> (start: int)
    ensures
        0 <= start <= text.len(),
        trimmed_start(text) == text.skip(start),
        forall|i: int| 0 <= i < start ==> is_white_space(#[trigger] text[i]),
        start < text.len() ==> !is_white_space(text[start]),
    decreases text.len(),
{
    if text.len() > 0 && is_white_space(text[0]) {
        let rest = text.drop_first();
        let start = lemma_trimmed_start(rest);
        assert(rest.skip(start) == text.skip(start + 1));
        assert forall|i: int| 0 <= i < start + 1 implies is_white_space(#[trigger] text[i]) by {
            if i > 0 {
                assert(rest[i - 1] == text[i]);
            }
        }
        start + 1
    } else {
        assert(text.skip(0) == text);
        0
    }
}

proof fn lemma_trimmed_end(text: Seq<char>) -> (len: int)
    ensures
        0 <= len <= text.len(),
        trimmed_end(text) == text.take(len),
        forall|i: int| len <= i < text.len() ==> is_white_space(#[trigger] text[i]),
        len > 0 ==> !is_white_space(text[len - 1]),
    decreases text.len(),
{
    if text.len() > 0 && is_white_space(text.last()) {
        let rest = text.drop_last();
        let len = lemma_trimmed_end(rest);
        assert(rest.take(len) == text.take(len));
        assert forall|i: int| len <= i < text.len() implies is_white_space(#[trigger] text[i]) by {
            if i < rest.len() {
                assert(rest[i] == text[i]);
            }
        }
        len
    } else {
        assert(text.take(text.len() as int) == text);
        text.len() as int
    }
}

/// A line ends at its line feed, and a carriage return before that belongs to the
/// ending; what follows is read as if it stood alone. Without a line feed the
/// text is one line, and an empty text has none.
pub proof fn lines_end_at_line_feeds(line: Seq<char>, rest: Seq<char>)
    requires
        forall|i: int| 0 <= i < line.len() ==> #[trigger] line[i] != '\n',
    ensures
        lines(line + seq!['\n'] + rest) == seq![
            if line.len() > 0 && line[line.len() - 1] == '\r' {
                line.take(line.len() - 1)
            } else {
                line
            },
        ] + lines(rest),
        line.len() > 0 ==> lines(line) == seq![line],
        lines(Seq::empty()) == Seq::<Seq<char>>::empty(),
{
    let text = line + seq!['\n'] + rest;
    assert(text[line.len() as int] == '\n');
    assert forall|i: int| 0 <= i < line.len() implies text[i] != '\n' by {
        assert(text[i] == line[i]);
    }
    lemma_position_unique(text, '\n', line.len());
    assert(text.take(line.len() as int) == line);
    assert(text.skip(line.len() as int + 1) == rest);
    lemma_position_unique(line, '\n', line.len());
    assert(lines(Seq::empty()) == Seq::<Seq<char>>::empty());
    if line.len() > 0 {
        assert(seq![line] + Seq::<Seq<char>>::empty() == seq![line]);
    }
}

/// A line gives a value when the trimmed text before its first colon is the name:
/// the trimmed text behind that colon. A line without a colon gives none.
pub proof fn a_line_gives_what_stands_behind_its_colon(
    before: Seq<char>,
    behind: Seq<char>,
    name: Seq<char>,
)
    requires
        forall|i: int| 0 <= i < before.len() ==> #[trigger] before[i] != ':',
    ensures
        line_value(before + seq![':'] + behind, name) == if trimmed(before) == name {
            Some(trimmed(behind))
        } else {
            None
        },
        line_value(before, name) is None,
{
    let line = before + seq![':'] + behind;
    assert(line[before.len() as int] == ':');
    assert forall|i: int| 0 <= i < before.len() implies line[i] != ':' by {
        assert(line[i] == before[i]);
    }
    lemma_position_unique(line, ':', before.len());
    assert(line.take(before.len() as int) == before);
    assert(line.skip(before.len() as int + 1) == behind);
    lemma_position_unique(before, ':', before.len());
}

/// The first line that gives a value counts, and no other.
pub proof fn the_first_value_counts(text: Seq<char>, name: Seq<char>)
    ensures
        match field_value(text, name) {
            Some(value) => exists|at: int|
                {
                    &&& 0 <= at < lines(text).len()
                    &&& line_value(#[trigger] lines(text)[at], name) == Some(value)
                    &&& forall|i: int|
                        0 <= i < at ==> line_value(#[trigger] lines(text)[i], name) is None
                },
            None => forall|i: int|
                0 <= i < lines(text).len() ==> line_value(#[trigger] lines(text)[i], name) is None,
        },
{
    lemma_first_value(lines(text), name);
}

proof fn lemma_first_value(all: Seq<Seq<char>>, name: Seq<char>)
    ensures
        match first_value(all, name) {
            Some(value) => exists|at: int|
                {
                    &&& 0 <= at < all.len()
                    &&& line_value(#[trigger] all[at], name) == Some(value)
                    &&& forall|i: int| 0 <= i < at ==> line_value(#[trigger] all[i], name) is None
                },
            None => forall|i: int|
                0 <= i < all.len() ==> line_value(#[trigger] all[i], name) is None,
        },
    decreases all.len(),
{
    if all.len() > 0 {
        if line_value(all[0], name) is Some {
            assert(line_value(all[0], name) == first_value(all, name));
        } else {
            let rest = all.drop_first();
            lemma_first_value(rest, name);
            match first_value(rest, name) {
                Some(value) => {
                    let at = choose|at: int|
                        {
                            &&& 0 <= at < rest.len()
                            &&& line_value(#[trigger] rest[at], name) == Some(value)
                            &&& forall|i: int|
                                0 <= i < at ==> line_value(#[trigger] rest[i], name) is None
                        };
                    assert(all[at + 1] == rest[at]);
                    assert forall|i: int| 0 <= i < at + 1 implies line_value(
                        #[trigger] all[i],
                        name,
                    ) is None by {
                        if i > 0 {
                            assert(rest[i - 1] == all[i]);
                        }
                    }
                },
                None => {
                    assert forall|i: int| 0 <= i < all.len() implies line_value(
                        #[trigger] all[i],
                        name,
                    ) is None by {
                        if i > 0 {
                            assert(rest[i - 1] == all[i]);
                        }
                    }
                },
            }
        }
    }
}

/// A needle occurs in a text exactly when the text is made of something, the
/// needle and something.
pub proof fn a_needle_occurs_between_two_parts(text: Seq<char>, needle: Seq<char>)
    ensures
        occurs(text, needle) <==> exists|front: Seq<char>, back: Seq<char>|
            text == #[trigger] (front + needle + back),
{
    if occurs(text, needle) {
        let at = choose|at: int|
            0 <= at && at + needle.len() <= text.len() && #[trigger] text.subrange(
                at,
                at + needle.len(),
            ) == needle;
        assert(text == text.take(at) + needle + text.skip(at + needle.len()));
    }
    if exists|front: Seq<char>, back: Seq<char>| text == #[trigger] (front + needle + back) {
        let (front, back) = choose|front: Seq<char>, back: Seq<char>|
            text == #[trigger] (front + needle + back);
        let at = front.len() as int;
        assert(text.subrange(at, at + needle.len()) == needle);
    }
}

/// Views of lists and of optional texts keep every text where it is.
pub proof fn texts_stay_in_place(strings: Seq<String>, text: Option<String>)
    ensures
        texts(strings).len() == strings.len(),
        forall|i: int| 0 <= i < strings.len() ==> #[trigger] texts(strings)[i] == strings[i]@,
        optional_text(text) is Some <==> text is Some,
        text matches Some(held) ==> optional_text(text) == Some(held@),
{
}

/// What stands before the first separator, and what stands behind it, can be told
/// from the whole.
pub proof fn a_separator_splits_a_text(
    left: Seq<char>,
    left_rest: Seq<char>,
    right: Seq<char>,
    right_rest: Seq<char>,
    separator: char,
)
    requires
        forall|i: int| 0 <= i < left.len() ==> #[trigger] left[i] != separator,
        forall|i: int| 0 <= i < right.len() ==> #[trigger] right[i] != separator,
        left + seq![separator] + left_rest == right + seq![separator] + right_rest,
    ensures
        left == right,
        left_rest == right_rest,
{
    let whole = left + seq![separator] + left_rest;
    assert(whole[left.len() as int] == separator);
    assert((right + seq![separator] + right_rest)[right.len() as int] == separator);
    if left.len() < right.len() {
        assert((right + seq![separator] + right_rest)[left.len() as int] == right[left.len() as int]);
    }
    if right.len() < left.len() {
        assert(whole[right.len() as int] == left[right.len() as int]);
    }
    assert(left == whole.take(left.len() as int));
    assert(right == whole.take(right.len() as int));
    assert(left_rest == whole.skip(left.len() as int + 1));
    assert(right_rest == whole.skip(right.len() as int + 1));
}

/// The characters of white space: the controls from tab to carriage return, the
/// next line, and the separators of words, lines and paragraphs.
pub open spec fn white_space_characters() -> Seq<char> {
    seq![
        '\u{9}',
        '\u{a}',
        '\u{b}',
        '\u{c}',
        '\u{d}',
        '\u{20}',
        '\u{85}',
        '\u{a0}',
        '\u{1680}',
        '\u{2000}',
        '\u{2001}',
        '\u{2002}',
        '\u{2003}',
        '\u{2004}',
        '\u{2005}',
        '\u{2006}',
        '\u{2007}',
        '\u{2008}',
        '\u{2009}',
        '\u{200a}',
        '\u{2028}',
        '\u{2029}',
        '\u{202f}',
        '\u{205f}',
        '\u{3000}',
    ]
}

/// White space is one of the twenty-five characters, and nothing else is.
pub proof fn white_space_is_listed(c: char)
    ensures
        is_white_space(c) <==> white_space_characters().contains(c),
{
    let all = white_space_characters();
    assert(all.len() == 25);
    assert(all[0] == '\u{9}');
    assert(all[1] == '\u{a}');
    assert(all[2] == '\u{b}');
    assert(all[3] == '\u{c}');
    assert(all[4] == '\u{d}');
    assert(all[5] == '\u{20}');
    assert(all[6] == '\u{85}');
    assert(all[7] == '\u{a0}');
    assert(all[8] == '\u{1680}');
    assert(all[9] == '\u{2000}');
    assert(all[10] == '\u{2001}');
    assert(all[11] == '\u{2002}');
    assert(all[12] == '\u{2003}');
    assert(all[13] == '\u{2004}');
    assert(all[14] == '\u{2005}');
    assert(all[15] == '\u{2006}');
    assert(all[16] == '\u{2007}');
    assert(all[17] == '\u{2008}');
    assert(all[18] == '\u{2009}');
    assert(all[19] == '\u{200a}');
    assert(all[20] == '\u{2028}');
    assert(all[21] == '\u{2029}');
    assert(all[22] == '\u{202f}');
    assert(all[23] == '\u{205f}');
    assert(all[24] == '\u{3000}');
    if all.contains(c) {
        let i = choose|i: int| 0 <= i < all.len() && all[i] == c;
        assert(is_white_space(all[i]));
    }
}

} // verus!
