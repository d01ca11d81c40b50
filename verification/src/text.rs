//! Text as sequences of characters: splitting, trimming, decimal numbers and
//! the order of strings. The candidate format is written in these terms.

use vstd::prelude::*;

verus! {

/// `String::push` appends one character.
pub assume_specification[ String::push ](text: &mut String, ch: char)
    ensures
        final(text)@ == old(text)@.push(ch),
;

/// The characters of `text`.
pub fn chars_of(text: &str) -> (chars: Vec<char>)
    ensures
        chars@ == text@,
{
    let mut chars: Vec<char> = Vec::new();
    for ch in iter: text.chars()
        invariant
            iter.seq() == text@,
            chars@ == iter.seq().take(iter.index() as int),
    {
        chars.push(ch);
    }
    chars
}

/// The string made of `chars`.
pub fn string_of(chars: &Vec<char>) -> (text: String)
    ensures
        text@ == chars@,
{
    let mut text = String::new();
    let mut index: usize = 0;
    while index < chars.len()
        invariant
            index <= chars.len(),
            text@ == chars@.take(index as int),
        decreases chars.len() - index,
    {
        text.push(chars[index]);
        index += 1;
    }
    text
}

/// The characters of `chars` from `from` up to, not including, `to`.
pub fn slice_of(chars: &Vec<char>, from: usize, to: usize) -> (part: Vec<char>)
    requires
        from <= to <= chars.len(),
    ensures
        part@ == chars@.subrange(from as int, to as int),
{
    let mut part: Vec<char> = Vec::new();
    let mut index: usize = from;
    while index < to
        invariant
            from <= index <= to <= chars.len(),
            part@ == chars@.subrange(from as int, index as int),
        decreases to - index,
    {
        part.push(chars[index]);
        index += 1;
    }
    part
}

/// Appends the characters of `tail` to `head`.
pub fn append_chars(head: &mut Vec<char>, tail: &Vec<char>)
    ensures
        final(head)@ == old(head)@ + tail@,
{
    let mut index: usize = 0;
    while index < tail.len()
        invariant
            index <= tail.len(),
            head@ == old(head)@ + tail@.take(index as int),
        decreases tail.len() - index,
    {
        head.push(tail[index]);
        index += 1;
    }
}

/// Whether two texts hold the same characters.
pub fn same_chars(left: &Vec<char>, right: &Vec<char>) -> (same: bool)
    ensures
        same == (left@ == right@),
{
    if left.len() != right.len() {
        return false;
    }
    let mut index: usize = 0;
    while index < left.len()
        invariant
            index <= left.len(),
            left.len() == right.len(),
            left@.take(index as int) == right@.take(index as int),
        decreases left.len() - index,
    {
        if left[index] != right[index] {
            return false;
        }
        assert(left@.take(index + 1) == left@.take(index as int).push(left@[index as int]));
        assert(right@.take(index + 1) == right@.take(index as int).push(right@[index as int]));
        index += 1;
    }
    assert(left@ == left@.take(left.len() as int));
    assert(right@ == right@.take(right.len() as int));
    true
}

/// The index of the first `mark` in `text`, or the length of `text` where it
/// holds none.
pub open spec fn first_index(text: Seq<char>, mark: char) -> int
    decreases text.len(),
{
    if text.len() == 0 {
        0
    } else if text[0] == mark {
        0
    } else {
        1 + first_index(text.drop_first(), mark)
    }
}

/// `first_index` is within bounds, no `mark` stands before it, and one
/// stands at it unless it is the length.
pub proof fn lemma_first_index(text: Seq<char>, mark: char)
    ensures
        0 <= first_index(text, mark) <= text.len(),
        forall|k: int| 0 <= k < first_index(text, mark) ==> text[k] != mark,
        first_index(text, mark) < text.len() ==> text[first_index(text, mark)] == mark,
    decreases text.len(),
{
    if text.len() != 0 && text[0] != mark {
        let rest = text.drop_first();
        lemma_first_index(rest, mark);
        assert forall|k: int| 0 <= k < first_index(text, mark) implies text[k] != mark by {
            if k > 0 {
                assert(text[k] == rest[k - 1]);
            }
        }
    }
}

/// The index that `first_index` gives is the only one of which this holds.
pub proof fn lemma_first_index_is(text: Seq<char>, mark: char, index: int)
    requires
        0 <= index <= text.len(),
        forall|k: int| 0 <= k < index ==> text[k] != mark,
        index < text.len() ==> text[index] == mark,
    ensures
        first_index(text, mark) == index,
{
    lemma_first_index(text, mark);
    let found = first_index(text, mark);
    if found < index {
        assert(text[found] != mark);
    }
}

/// The parts of `text` between its `mark`s: one more than there are marks.
pub open spec fn split(text: Seq<char>, mark: char) -> Seq<Seq<char>>
    decreases text.len(),
{
    let cut = first_index(text, mark);
    if 0 <= cut < text.len() {
        seq![text.take(cut)] + split(text.skip(cut + 1), mark)
    } else {
        seq![text]
    }
}

/// Whether `text` holds no `mark`.
pub open spec fn free_of(text: Seq<char>, mark: char) -> bool {
    forall|k: int| 0 <= k < text.len() ==> text[k] != mark
}

/// A text without marks is its own single part.
pub proof fn lemma_split_free(text: Seq<char>, mark: char)
    requires
        free_of(text, mark),
    ensures
        split(text, mark) == seq![text],
{
    lemma_first_index_is(text, mark, text.len() as int);
}

/// A text that begins with `head`, free of marks, and a mark, has `head` as
/// its first part; its other parts are those of what follows the mark.
pub proof fn lemma_split_after(head: Seq<char>, mark: char, tail: Seq<char>)
    requires
        free_of(head, mark),
    ensures
        split(head + seq![mark] + tail, mark) == seq![head] + split(tail, mark),
{
    let text = head + seq![mark] + tail;
    lemma_first_index_is(text, mark, head.len() as int);
    assert(text.take(head.len() as int) == head);
    assert(text.skip(head.len() as int + 1) == tail);
}

/// No part of a split text holds a mark.
pub proof fn lemma_split_parts_free(text: Seq<char>, mark: char)
    ensures
        forall|k: int| 0 <= k < split(text, mark).len() ==> free_of(#[trigger] split(text, mark)[k], mark),
    decreases text.len(),
{
    lemma_first_index(text, mark);
    let cut = first_index(text, mark);
    if cut < text.len() {
        lemma_split_parts_free(text.skip(cut + 1), mark);
        let rest = split(text.skip(cut + 1), mark);
        assert forall|k: int| 0 <= k < split(text, mark).len() implies free_of(
            #[trigger] split(text, mark)[k],
            mark,
        ) by {
            if k > 0 {
                assert(split(text, mark)[k] == rest[k - 1]);
            }
        }
    }
}

/// A part of a split text holds no character that the text does not hold.
pub proof fn lemma_split_parts_keep_free(text: Seq<char>, mark: char, other: char)
    requires
        free_of(text, other),
    ensures
        forall|k: int| 0 <= k < split(text, mark).len() ==> free_of(#[trigger] split(text, mark)[k], other),
    decreases text.len(),
{
    lemma_first_index(text, mark);
    let cut = first_index(text, mark);
    if cut < text.len() {
        let tail = text.skip(cut + 1);
        assert(free_of(tail, other)) by {
            assert forall|k: int| 0 <= k < tail.len() implies tail[k] != other by {
                assert(tail[k] == text[k + cut + 1]);
            }
        }
        lemma_split_parts_keep_free(tail, mark, other);
        let rest = split(tail, mark);
        assert forall|k: int| 0 <= k < split(text, mark).len() implies free_of(
            #[trigger] split(text, mark)[k],
            other,
        ) by {
            if k > 0 {
                assert(split(text, mark)[k] == rest[k - 1]);
            } else {
                assert(split(text, mark)[0] == text.take(cut));
                assert forall|i: int| 0 <= i < text.take(cut).len() implies text.take(cut)[i] != other by {
                    assert(text.take(cut)[i] == text[i]);
                }
            }
        }
    }
}

/// The last part of a split text, unless it is empty, ends as the text
/// ends.
pub proof fn lemma_split_last_ends(text: Seq<char>, mark: char)
    ensures
        split(text, mark).len() > 0,
        split(text, mark).last().len() > 0 ==> text.len() > 0 && split(text, mark).last().last() == text.last(),
    decreases text.len(),
{
    lemma_first_index(text, mark);
    let cut = first_index(text, mark);
    if cut < text.len() {
        let tail = text.skip(cut + 1);
        lemma_split_last_ends(tail, mark);
        assert(split(text, mark).last() == split(tail, mark).last());
        if tail.len() > 0 {
            assert(tail.last() == text.last());
        }
    }
}

/// The texts that a list of character vectors holds.
pub open spec fn texts(parts: Seq<Vec<char>>) -> Seq<Seq<char>> {
    parts.map_values(|part: Vec<char>| part@)
}

/// Splits `text` at every `mark`.
pub fn split_at_mark(text: &Vec<char>, mark: char) -> (parts: Vec<Vec<char>>)
    ensures
        texts(parts@) == split(text@, mark),
{
    let mut parts: Vec<Vec<char>> = Vec::new();
    let mut start: usize = 0;
    let mut index: usize = 0;
    assert(text@.skip(0) == text@);
    while index < text.len()
        invariant
            start <= index <= text.len(),
            forall|k: int| start <= k < index ==> text@[k] != mark,
            split(text@, mark) == texts(parts@) + split(text@.skip(start as int), mark),
        decreases text.len() - index,
    {
        if text[index] == mark {
            let part = slice_of(text, start, index);
            proof {
                let rest = text@.skip(start as int);
                lemma_first_index_is(rest, mark, index - start);
                assert(rest.take(index - start) == part@);
                assert(rest.skip(index - start + 1) == text@.skip(index + 1));
                assert(texts(parts@.push(part)) == texts(parts@).push(part@));
                assert(texts(parts@).push(part@) + split(text@.skip(index + 1), mark) == texts(parts@) + (
                seq![part@] + split(text@.skip(index + 1), mark)));
            }
            parts.push(part);
            start = index + 1;
        }
        index += 1;
    }
    let part = slice_of(text, start, text.len());
    proof {
        let rest = text@.skip(start as int);
        lemma_first_index_is(rest, mark, rest.len() as int);
        assert(rest == part@);
        assert(texts(parts@.push(part)) == texts(parts@).push(part@));
        assert(texts(parts@).push(part@) == texts(parts@) + seq![part@]);
    }
    parts.push(part);
    parts
}

/// Whether `ch` is white space as Unicode defines it (White_Space).
pub open spec fn is_whitespace(ch: char) -> bool {
    let code = ch as int;
    ||| 0x09 <= code <= 0x0d
    ||| code == 0x20
    ||| code == 0x85
    ||| code == 0xa0
    ||| code == 0x1680
    ||| 0x2000 <= code <= 0x200a
    ||| code == 0x2028
    ||| code == 0x2029
    ||| code == 0x202f
    ||| code == 0x205f
    ||| code == 0x3000
}

/// The code point of `ch`.
pub fn code_of(ch: char) -> (code: u32)
    ensures
        code == ch as int,
{
    ch as u32
}

/// Whether `ch` is white space as Unicode defines it (White_Space).
pub fn is_whitespace_char(ch: char) -> (white: bool)
    ensures
        white == is_whitespace(ch),
{
    let code: u32 = code_of(ch);
    (0x09 <= code && code <= 0x0d) || code == 0x20 || code == 0x85 || code == 0xa0 || code == 0x1680 || (0x2000
        <= code && code <= 0x200a) || code == 0x2028 || code == 0x2029 || code == 0x202f || code == 0x205f || code
        == 0x3000
}

/// `text` without the white space it begins with.
pub open spec fn trim_start(text: Seq<char>) -> Seq<char>
    decreases text.len(),
{
    if text.len() > 0 && is_whitespace(text[0]) {
        trim_start(text.drop_first())
    } else {
        text
    }
}

/// `text` without the white space it ends with.
pub open spec fn trim_end(text: Seq<char>) -> Seq<char>
    decreases text.len(),
{
    if text.len() > 0 && is_whitespace(text.last()) {
        trim_end(text.drop_last())
    } else {
        text
    }
}

/// `text` without the white space at either end.
pub open spec fn trim(text: Seq<char>) -> Seq<char> {
    trim_end(trim_start(text))
}

/// Removes the white space at either end of `text`.
pub fn trim_chars(text: &Vec<char>) -> (trimmed: Vec<char>)
    ensures
        trimmed@ == trim(text@),
{
    let mut start: usize = 0;
    assert(text@.skip(0) == text@);
    while start < text.len() && is_whitespace_char(text[start])
        invariant
            start <= text.len(),
            trim_start(text@) == trim_start(text@.skip(start as int)),
        decreases text.len() - start,
    {
        assert(text@.skip(start as int).drop_first() == text@.skip(start + 1));
        start += 1;
    }
    let mut end: usize = text.len();
    assert(text@.skip(start as int) == text@.subrange(start as int, end as int));
    while end > start && is_whitespace_char(text[end - 1])
        invariant
            start <= end <= text.len(),
            trim_start(text@) == text@.skip(start as int),
            trim(text@) == trim_end(text@.subrange(start as int, end as int)),
        decreases end - start,
    {
        assert(text@.subrange(start as int, end as int).drop_last() == text@.subrange(start as int, end - 1));
        end -= 1;
    }
    slice_of(text, start, end)
}

/// A text that neither begins nor ends with white space is left as it is.
pub proof fn lemma_trim_stable(text: Seq<char>)
    requires
        text.len() > 0 ==> !is_whitespace(text[0]) && !is_whitespace(text.last()),
    ensures
        trim(text) == text,
{
}

/// What is left of a text without the white space it begins with is its
/// end, from a character on that is no white space.
pub proof fn lemma_trim_start(text: Seq<char>) -> (from: int)
    ensures
        0 <= from <= text.len(),
        trim_start(text) == text.skip(from),
        from < text.len() ==> !is_whitespace(text[from]),
    decreases text.len(),
{
    if text.len() > 0 && is_whitespace(text[0]) {
        let inner = lemma_trim_start(text.drop_first());
        assert(text.drop_first().skip(inner) == text.skip(inner + 1));
        inner + 1
    } else {
        assert(text.skip(0) == text);
        0
    }
}

/// What is left of a text without the white space it ends with is its
/// beginning, up to a character that is no white space.
pub proof fn lemma_trim_end(text: Seq<char>) -> (to: int)
    ensures
        0 <= to <= text.len(),
        trim_end(text) == text.take(to),
        to > 0 ==> !is_whitespace(text[to - 1]),
    decreases text.len(),
{
    if text.len() > 0 && is_whitespace(text.last()) {
        let inner = lemma_trim_end(text.drop_last());
        assert(text.drop_last().take(inner) == text.take(inner));
        inner
    } else {
        assert(text.take(text.len() as int) == text);
        text.len() as int
    }
}

/// A trimmed text neither begins nor ends with white space, and holds no
/// character that the text does not hold.
pub proof fn lemma_trim(text: Seq<char>, other: char)
    ensures
        trim(text).len() > 0 ==> !is_whitespace(trim(text)[0]) && !is_whitespace(trim(text).last()),
        free_of(text, other) ==> free_of(trim(text), other),
{
    let from = lemma_trim_start(text);
    let middle = text.skip(from);
    let to = lemma_trim_end(middle);
    let trimmed = middle.take(to);
    assert(trim(text) == trimmed);
    if free_of(text, other) {
        assert forall|k: int| 0 <= k < trimmed.len() implies trimmed[k] != other by {
            assert(trimmed[k] == text[k + from]);
        }
    }
    if trimmed.len() > 0 {
        assert(trimmed[0] == text[from]);
        assert(trimmed.last() == middle[to - 1]);
    }
}

/// The character that stands for a digit's value.
pub open spec fn digit(value: nat) -> char {
    (value + 48) as char
}

/// Whether `ch` is one of `0` to `9`.
pub open spec fn is_digit(ch: char) -> bool {
    48 <= ch as int <= 57
}

/// The value of a digit.
pub open spec fn digit_value(ch: char) -> nat {
    (ch as int - 48) as nat
}

/// `value` in decimal digits, without leading zeros.
pub open spec fn decimal(value: nat) -> Seq<char>
    decreases value,
{
    if value < 10 {
        seq![digit(value)]
    } else {
        decimal(value / 10).push(digit(value % 10))
    }
}

/// Whether `text` is made of digits only.
pub open spec fn all_digits(text: Seq<char>) -> bool {
    forall|k: int| 0 <= k < text.len() ==> is_digit(#[trigger] text[k])
}

/// The number that the digits of `text` stand for in decimal.
pub open spec fn decimal_value(text: Seq<char>) -> nat
    decreases text.len(),
{
    if text.len() == 0 {
        0
    } else {
        decimal_value(text.drop_last()) * 10 + digit_value(text.last())
    }
}

/// The 16-bit number that `text` stands for: an optional `+`, then one or
/// more digits, whose value fits. Anything else stands for none.
pub open spec fn parse_u16(text: Seq<char>) -> Option<u16> {
    let digits = if text.len() > 0 && text[0] == '+' {
        text.drop_first()
    } else {
        text
    };
    if digits.len() > 0 && all_digits(digits) && decimal_value(digits) <= u16::MAX {
        Some(decimal_value(digits) as u16)
    } else {
        None
    }
}

/// The digits of a number are digits, and stand for the number.
pub proof fn lemma_decimal(value: nat)
    ensures
        decimal(value).len() > 0,
        all_digits(decimal(value)),
        decimal_value(decimal(value)) == value,
    decreases value,
{
    if value < 10 {
        let text = decimal(value);
        assert(text.drop_last() =~= Seq::<char>::empty());
        assert(decimal_value(text.drop_last()) == 0);
    } else {
        lemma_decimal(value / 10);
        let text = decimal(value);
        assert(text.drop_last() =~= decimal(value / 10));
        assert forall|k: int| 0 <= k < text.len() implies is_digit(#[trigger] text[k]) by {
            if k < text.len() - 1 {
                assert(text[k] == decimal(value / 10)[k]);
            }
        }
    }
}

/// A number's digits parse back to the number.
pub proof fn lemma_parse_decimal(value: u16)
    ensures
        parse_u16(decimal(value as nat)) == Some(value),
{
    lemma_decimal(value as nat);
    assert(is_digit(decimal(value as nat)[0]));
}

/// A prefix of a text stands for no more than the text.
pub proof fn lemma_decimal_value_prefix(text: Seq<char>, length: int)
    requires
        0 <= length <= text.len(),
    ensures
        decimal_value(text.take(length)) <= decimal_value(text),
    decreases text.len(),
{
    if length == text.len() {
        assert(text.take(length) == text);
    } else {
        lemma_decimal_value_prefix(text.drop_last(), length);
        assert(text.drop_last().take(length) == text.take(length));
        assert(decimal_value(text.drop_last()) * 10 >= decimal_value(text.drop_last())) by (nonlinear_arith);
    }
}

/// The digits of `value`.
pub fn decimal_chars(value: u16) -> (digits: Vec<char>)
    ensures
        digits@ == decimal(value as nat),
{
    let mut digits: Vec<char> = Vec::new();
    digits.push(digit_char(value % 10));
    let mut rest: u16 = value / 10;
    assert(digits@ == seq![digit((value % 10) as nat)]);
    assert(decimal(value as nat) == if rest > 0 {
        decimal(rest as nat)
    } else {
        Seq::<char>::empty()
    } + digits@);
    while rest > 0
        invariant
            decimal(value as nat) == if rest > 0 {
                decimal(rest as nat)
            } else {
                Seq::<char>::empty()
            } + digits@,
        decreases rest,
    {
        let ghost before = digits@;
        digits.insert(0, digit_char(rest % 10));
        assert(digits@ == seq![digit((rest % 10) as nat)] + before);
        rest = rest / 10;
    }
    digits
}

/// The character of a digit's value.
pub fn digit_char(value: u16) -> (ch: char)
    requires
        value < 10,
    ensures
        ch == digit(value as nat),
{
    let code: u8 = 48 + value as u8;
    code as char
}

/// Reads a 16-bit number as `str::parse` does: an optional `+`, then digits.
pub fn parse_u16_chars(text: &Vec<char>) -> (number: Option<u16>)
    ensures
        number == parse_u16(text@),
{
    let start: usize = if text.len() > 0 && text[0] == '+' {
        1
    } else {
        0
    };
    let ghost digits = text@.skip(start as int);
    assert(digits == if text@.len() > 0 && text@[0] == '+' {
        text@.drop_first()
    } else {
        text@
    });
    if start == text.len() {
        return None;
    }
    let mut value: u32 = 0;
    let mut index: usize = start;
    assert(digits.take(0) =~= Seq::<char>::empty());
    while index < text.len()
        invariant
            start <= index <= text.len(),
            digits == text@.skip(start as int),
            digits == if text@.len() > 0 && text@[0] == '+' {
                text@.drop_first()
            } else {
                text@
            },
            all_digits(digits.take(index - start)),
            value == decimal_value(digits.take(index - start)),
            value <= u16::MAX,
        decreases text.len() - index,
    {
        let code: u32 = code_of(text[index]);
        let ghost longer = digits.take(index - start + 1);
        assert(longer.drop_last() == digits.take(index - start));
        assert(longer.last() == text@[index as int]);
        assert(digits[index - start] == text@[index as int]);
        if code < 48 || code > 57 {
            assert(!is_digit(digits[index - start]));
            assert(!all_digits(digits));
            return None;
        }
        let next: u32 = value * 10 + (code - 48);
        assert(next == decimal_value(longer));
        if next > 65535 {
            proof {
                lemma_decimal_value_prefix(digits, index - start + 1);
            }
            assert(decimal_value(digits) > u16::MAX);
            return None;
        }
        assert forall|k: int| 0 <= k < longer.len() implies is_digit(#[trigger] longer[k]) by {
            if k < longer.len() - 1 {
                assert(longer[k] == digits.take(index - start)[k]);
            }
        }
        value = next;
        index += 1;
    }
    assert(digits.take(index - start) == digits);
    Some(value as u16)
}

/// Whether `left` comes before `right`, or equals it, in the order of
/// strings: by the first character in which they differ, and a text before
/// the longer texts that begin with it.
pub open spec fn lex_le(left: Seq<char>, right: Seq<char>) -> bool
    decreases left.len(),
{
    if left.len() == 0 {
        true
    } else if right.len() == 0 {
        false
    } else if left[0] != right[0] {
        (left[0] as int) < (right[0] as int)
    } else {
        lex_le(left.drop_first(), right.drop_first())
    }
}

/// Every text comes before or equals itself.
pub proof fn lemma_lex_le_reflexive(text: Seq<char>)
    ensures
        lex_le(text, text),
    decreases text.len(),
{
    if text.len() > 0 {
        lemma_lex_le_reflexive(text.drop_first());
    }
}

/// Of two texts, one comes before or equals the other.
pub proof fn lemma_lex_le_total(left: Seq<char>, right: Seq<char>)
    ensures
        lex_le(left, right) || lex_le(right, left),
    decreases left.len(),
{
    if left.len() > 0 && right.len() > 0 && left[0] == right[0] {
        lemma_lex_le_total(left.drop_first(), right.drop_first());
    }
}

/// The order of strings is transitive.
pub proof fn lemma_lex_le_transitive(first: Seq<char>, second: Seq<char>, third: Seq<char>)
    requires
        lex_le(first, second),
        lex_le(second, third),
    ensures
        lex_le(first, third),
    decreases first.len(),
{
    if first.len() > 0 && second.len() > 0 && third.len() > 0 {
        if first[0] == second[0] && second[0] == third[0] {
            lemma_lex_le_transitive(first.drop_first(), second.drop_first(), third.drop_first());
        }
    }
}

/// Two texts that each come before or equal the other are the same text.
pub proof fn lemma_lex_le_antisymmetric(left: Seq<char>, right: Seq<char>)
    requires
        lex_le(left, right),
        lex_le(right, left),
    ensures
        left == right,
    decreases left.len(),
{
    if left.len() > 0 && right.len() > 0 {
        lemma_lex_le_antisymmetric(left.drop_first(), right.drop_first());
        assert(left =~= seq![left[0]] + left.drop_first());
        assert(right =~= seq![right[0]] + right.drop_first());
    } else {
        assert(left =~= right);
    }
}

/// Whether each text comes before the texts after it, and differs from
/// them.
pub open spec fn strictly_ascending(lines: Seq<Seq<char>>) -> bool {
    forall|i: int, j: int| 0 <= i < j < lines.len() ==> lex_le(#[trigger] lines[i], #[trigger] lines[j]) && lines[i] != lines[j]
}

/// Two lists in strict order that hold the same texts are the same list.
pub proof fn lemma_strict_order_is_unique(left: Seq<Seq<char>>, right: Seq<Seq<char>>)
    requires
        strictly_ascending(left),
        strictly_ascending(right),
        forall|line: Seq<char>| left.contains(line) <==> right.contains(line),
    ensures
        left == right,
    decreases left.len(),
{
    if left.len() == 0 {
        if right.len() > 0 {
            assert(right.contains(right[0]));
        }
        assert(left =~= right);
    } else {
        assert(left.contains(left[0]));
        assert(right.contains(left[0]));
        let first = left[0];
        let other = right[0];
        assert(right.contains(other));
        assert(left.contains(other));
        let at_right = choose|k: int| 0 <= k < right.len() && right[k] == first;
        let at_left = choose|k: int| 0 <= k < left.len() && left[k] == other;
        if at_right > 0 && at_left > 0 {
            assert(lex_le(right[0], right[at_right]));
            assert(lex_le(left[0], left[at_left]));
            lemma_lex_le_antisymmetric(first, other);
        }
        assert(first == other);
        let left_rest = left.drop_first();
        let right_rest = right.drop_first();
        assert forall|i: int, j: int| 0 <= i < j < left_rest.len() implies lex_le(
            #[trigger] left_rest[i],
            #[trigger] left_rest[j],
        ) && left_rest[i] != left_rest[j] by {
            assert(left_rest[i] == left[i + 1] && left_rest[j] == left[j + 1]);
        }
        assert forall|i: int, j: int| 0 <= i < j < right_rest.len() implies lex_le(
            #[trigger] right_rest[i],
            #[trigger] right_rest[j],
        ) && right_rest[i] != right_rest[j] by {
            assert(right_rest[i] == right[i + 1] && right_rest[j] == right[j + 1]);
        }
        assert forall|line: Seq<char>| left_rest.contains(line) <==> right_rest.contains(line) by {
            lemma_rest_members(left, line);
            lemma_rest_members(right, line);
        }
        lemma_strict_order_is_unique(left_rest, right_rest);
        assert(left =~= seq![first] + left_rest);
        assert(right =~= seq![other] + right_rest);
    }
}

/// What follows the first text of a list in strict order holds the other
/// texts of the list, and not the first.
proof fn lemma_rest_members(lines: Seq<Seq<char>>, line: Seq<char>)
    requires
        strictly_ascending(lines),
        lines.len() > 0,
    ensures
        lines.drop_first().contains(line) <==> lines.contains(line) && line != lines[0],
{
    let rest = lines.drop_first();
    if rest.contains(line) {
        let k = choose|k: int| 0 <= k < rest.len() && rest[k] == line;
        assert(lines[k + 1] == line);
        assert(lex_le(lines[0], lines[k + 1]) && lines[0] != lines[k + 1]);
    }
    if lines.contains(line) && line != lines[0] {
        let k = choose|k: int| 0 <= k < lines.len() && lines[k] == line;
        assert(rest[k - 1] == line);
    }
}

/// Whether `left` comes before `right`, or equals it, in the order of
/// strings.
pub fn precedes(left: &Vec<char>, right: &Vec<char>) -> (before: bool)
    ensures
        before == lex_le(left@, right@),
{
    let mut index: usize = 0;
    assert(left@.skip(0) == left@);
    assert(right@.skip(0) == right@);
    while index < left.len()
        invariant
            index <= left.len(),
            index <= right.len(),
            lex_le(left@, right@) == lex_le(left@.skip(index as int), right@.skip(index as int)),
        decreases left.len() - index,
    {
        if index == right.len() {
            return false;
        }
        let here: u32 = code_of(left[index]);
        let there: u32 = code_of(right[index]);
        if here != there {
            return here < there;
        }
        assert(left@.skip(index as int).drop_first() == left@.skip(index + 1));
        assert(right@.skip(index as int).drop_first() == right@.skip(index + 1));
        index += 1;
    }
    true
}

/// The texts of `lines` in a row, with a `mark` between each two.
pub open spec fn join(lines: Seq<Seq<char>>, mark: char) -> Seq<char>
    decreases lines.len(),
{
    if lines.len() == 0 {
        Seq::empty()
    } else if lines.len() == 1 {
        lines[0]
    } else {
        join(lines.drop_last(), mark).push(mark) + lines.last()
    }
}

/// Lines in a row begin with the first line; after a mark, the others
/// follow in a row.
pub proof fn lemma_join_front(lines: Seq<Seq<char>>, mark: char)
    requires
        lines.len() >= 2,
    ensures
        join(lines, mark) == lines[0] + seq![mark] + join(lines.drop_first(), mark),
    decreases lines.len(),
{
    let front = lines.drop_last();
    let rest = lines.drop_first();
    if lines.len() == 2 {
        assert(join(front, mark) == lines[0]);
        assert(join(rest, mark) == lines[1]);
        assert(join(lines, mark) =~= lines[0] + seq![mark] + lines[1]);
    } else {
        lemma_join_front(front, mark);
        assert(front.drop_first() == rest.drop_last());
        assert(front[0] == lines[0]);
        assert(rest.last() == lines.last());
        assert(join(lines, mark) =~= lines[0] + seq![mark] + (join(rest.drop_last(), mark).push(mark)
            + rest.last()));
    }
}

/// Lines that hold no mark are got back by splitting where they were joined.
pub proof fn lemma_split_join(lines: Seq<Seq<char>>, mark: char)
    requires
        lines.len() > 0,
        forall|k: int| 0 <= k < lines.len() ==> free_of(#[trigger] lines[k], mark),
    ensures
        split(join(lines, mark), mark) == lines,
    decreases lines.len(),
{
    if lines.len() == 1 {
        lemma_split_free(lines[0], mark);
        assert(lines =~= seq![lines[0]]);
    } else {
        let rest = lines.drop_first();
        lemma_join_front(lines, mark);
        assert forall|k: int| 0 <= k < rest.len() implies free_of(#[trigger] rest[k], mark) by {
            assert(rest[k] == lines[k + 1]);
        }
        lemma_split_join(rest, mark);
        lemma_split_after(lines[0], mark, join(rest, mark));
        assert(lines =~= seq![lines[0]] + rest);
    }
}

/// Puts `lines` in a row, with a `mark` between each two.
pub fn join_chars(lines: &Vec<Vec<char>>, mark: char) -> (joined: Vec<char>)
    ensures
        joined@ == join(texts(lines@), mark),
{
    let mut joined: Vec<char> = Vec::new();
    let mut index: usize = 0;
    assert(texts(lines@).take(0) =~= Seq::<Seq<char>>::empty());
    while index < lines.len()
        invariant
            index <= lines.len(),
            joined@ == join(texts(lines@).take(index as int), mark),
        decreases lines.len() - index,
    {
        let ghost longer = texts(lines@).take(index + 1);
        assert(longer.drop_last() == texts(lines@).take(index as int));
        assert(longer.last() == lines@[index as int]@);
        if index > 0 {
            joined.push(mark);
        } else {
            assert(longer.len() == 1);
        }
        append_chars(&mut joined, &lines[index]);
        index += 1;
    }
    assert(texts(lines@).take(index as int) == texts(lines@));
    joined
}

} // verus!
