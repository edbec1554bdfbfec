//! Text over sequences of characters.
//!
//! Every function here speaks of a string by its view, a `Seq<char>`.

use vstd::prelude::*;
use vstd::string::*;

verus! {

/// `String::push` appends one character and keeps everything before it.
pub assume_specification[ String::push ](target: &mut String, ch: char)
    ensures
        final(target)@ == old(target)@.push(ch),
;

/// The characters of `text`, in order.
pub fn chars_of(text: &str) -> (chars: Vec<char>)
    ensures
        chars@ == text@,
{
    let mut chars: Vec<char> = Vec::new();
    for ch in iter: text.chars()
        invariant
            chars@ == iter.seq().take(iter.index()),
            iter.seq() == text@,
    {
        chars.push(ch);
        assert(chars@ =~= iter.seq().take(iter.index() + 1));
    }
    chars
}

/// The characters `chars[from..to]` as a string.
pub fn slice_text(chars: &Vec<char>, from: usize, to: usize) -> (text: String)
    requires
        from <= to <= chars@.len(),
    ensures
        text@ == chars@.subrange(from as int, to as int),
{
    let mut text = String::new();
    let mut at: usize = from;
    while at < to
        invariant
            from <= at <= to <= chars@.len(),
            text@ == chars@.subrange(from as int, at as int),
        decreases to - at,
    {
        text.push(chars[at]);
        assert(chars@.subrange(from as int, at + 1) =~= chars@.subrange(from as int, at as int).push(
            chars@[at as int],
        ));
        at = at + 1;
    }
    text
}

/// Do two strings hold the same characters?
pub fn same(left: &str, right: &str) -> (equal: bool)
    ensures
        equal == (left@ == right@),
{
    left.to_owned() == right.to_owned()
}

/// `prefix` followed by the rest of `text`, or not a prefix at all.
pub open spec fn has_prefix(text: Seq<char>, prefix: Seq<char>) -> bool {
    prefix.len() <= text.len() && text.subrange(0, prefix.len() as int) == prefix
}

/// `text` ends in `suffix`.
pub open spec fn has_suffix(text: Seq<char>, suffix: Seq<char>) -> bool {
    suffix.len() <= text.len() && text.subrange(
        text.len() - suffix.len(),
        text.len() as int,
    ) == suffix
}

/// What is left of `text` after `prefix`, or all of it where `prefix` is none.
pub open spec fn without_prefix(text: Seq<char>, prefix: Seq<char>) -> Seq<char> {
    if has_prefix(text, prefix) {
        text.subrange(prefix.len() as int, text.len() as int)
    } else {
        text
    }
}

/// Do the characters of `text` at `from` spell out `part`?
fn spelled_at(text: &Vec<char>, from: usize, part: &Vec<char>) -> (found: bool)
    requires
        from + part@.len() <= text@.len(),
    ensures
        found == (text@.subrange(from as int, from + part@.len()) == part@),
{
    let total: usize = text.len();
    let mut at: usize = 0;
    while at < part.len()
        invariant
            at <= part@.len(),
            total == text@.len(),
            from + part@.len() <= text@.len(),
            forall|i: int| 0 <= i < at ==> text@[from + i] == part@[i],
        decreases part@.len() - at,
    {
        if text[from + at] != part[at] {
            proof {
                assert(text@.subrange(from as int, from + part@.len())[at as int] != part@[at as int]);
            }
            return false;
        }
        at = at + 1;
    }
    assert(text@.subrange(from as int, from + part@.len()) =~= part@);
    true
}

/// Does `text` begin with `prefix`?
pub fn starts_with(text: &str, prefix: &str) -> (found: bool)
    ensures
        found == has_prefix(text@, prefix@),
{
    let text = chars_of(text);
    let prefix = chars_of(prefix);
    prefix.len() <= text.len() && spelled_at(&text, 0, &prefix)
}

/// Does `text` end in `suffix`?
pub fn ends_with(text: &str, suffix: &str) -> (found: bool)
    ensures
        found == has_suffix(text@, suffix@),
{
    let text = chars_of(text);
    let suffix = chars_of(suffix);
    suffix.len() <= text.len() && spelled_at(&text, text.len() - suffix.len(), &suffix)
}

/// `text` without `prefix`, where it begins with it.
pub fn strip_prefix(text: &str, prefix: &str) -> (rest: Option<String>)
    ensures
        rest is Some <==> has_prefix(text@, prefix@),
        rest matches Some(rest) ==> rest@ == without_prefix(text@, prefix@),
{
    if starts_with(text, prefix) {
        let text = chars_of(text);
        let prefix = chars_of(prefix);
        Some(slice_text(&text, prefix.len(), text.len()))
    } else {
        None
    }
}

/// The place of the first `mark` in `text` at or after `from`, or the length
/// of `text` where there is none.
pub open spec fn first_at(text: Seq<char>, mark: char, from: int) -> int
    decreases text.len() - from,
{
    if from >= text.len() || from < 0 {
        text.len() as int
    } else if text[from] == mark {
        from
    } else {
        first_at(text, mark, from + 1)
    }
}

/// `first_at` is the least place of `mark`, or the end.
pub proof fn lemma_first_at(text: Seq<char>, mark: char, from: int)
    requires
        0 <= from <= text.len(),
    ensures
        from <= first_at(text, mark, from) <= text.len(),
        first_at(text, mark, from) < text.len() ==> text[first_at(text, mark, from)] == mark,
        forall|i: int| from <= i < first_at(text, mark, from) ==> text[i] != mark,
    decreases text.len() - from,
{
    if from < text.len() && text[from] != mark {
        lemma_first_at(text, mark, from + 1);
    }
}

/// The place of the first `mark` in `chars` at or after `from`.
pub fn find_char(chars: &Vec<char>, mark: char, from: usize) -> (at: usize)
    requires
        from <= chars@.len(),
    ensures
        from <= at <= chars@.len(),
        at == first_at(chars@, mark, from as int),
{
    let mut at: usize = from;
    while at < chars.len() && chars[at] != mark
        invariant
            from <= at <= chars@.len(),
            first_at(chars@, mark, from as int) == first_at(chars@, mark, at as int),
        decreases chars@.len() - at,
    {
        at = at + 1;
    }
    at
}

/// The parts of `text` between the marks, in order.
pub open spec fn segments(text: Seq<char>, mark: char) -> Seq<Seq<char>>
    decreases text.len(),
    via segments_decreases
{
    let end = first_at(text, mark, 0);
    if end >= text.len() {
        seq![text]
    } else {
        seq![text.subrange(0, end)] + segments(text.subrange(end + 1, text.len() as int), mark)
    }
}

#[via_fn]
proof fn segments_decreases(text: Seq<char>, mark: char) {
    lemma_first_at(text, mark, 0);
}

/// `first_at` in the rest of a text is `first_at` in the text, moved along.
proof fn lemma_first_at_in_rest(text: Seq<char>, mark: char, from: int, at: int)
    requires
        0 <= from <= at <= text.len(),
    ensures
        first_at(text.skip(from), mark, at - from) == first_at(text, mark, at) - from,
    decreases text.len() - at,
{
    if at < text.len() && text[at] != mark {
        lemma_first_at_in_rest(text, mark, from, at + 1);
    }
}

/// The parts of `text` between the marks, in order.
pub fn split(text: &str, mark: char) -> (parts: Vec<String>)
    ensures
        views(parts@) == segments(text@, mark),
{
    let chars = chars_of(text);
    let mut parts: Vec<String> = Vec::new();
    let mut from: usize = 0;
    assert(chars@.skip(0) =~= text@);
    assert(views(parts@) + segments(text@, mark) =~= segments(text@, mark));
    loop
        invariant_except_break
            from <= chars@.len(),
            chars@ == text@,
            views(parts@) + segments(chars@.skip(from as int), mark) == segments(text@, mark),
        ensures
            views(parts@) == segments(text@, mark),
        decreases chars@.len() - from,
    {
        let end = find_char(&chars, mark, from);
        let ghost rest = chars@.skip(from as int);
        proof {
            lemma_first_at_in_rest(chars@, mark, from as int, from as int);
            lemma_first_at(chars@, mark, from as int);
        }
        let part = slice_text(&chars, from, end);
        let ghost before = views(parts@);
        parts.push(part);
        assert(views(parts@) =~= before.push(part@));
        if end == chars.len() {
            assert(part@ =~= rest);
            assert(views(parts@) =~= before + seq![rest]);
            break;
        }
        proof {
            assert(part@ =~= rest.subrange(0, end - from));
            assert(chars@.skip(end + 1) =~= rest.subrange(end - from + 1, rest.len() as int));
            assert(views(parts@) + segments(chars@.skip(end + 1), mark) =~= before + (seq![part@]
                + segments(chars@.skip(end + 1), mark)));
        }
        from = end + 1;
    }
    parts
}

/// Do the characters of `text` at `at` spell out `part`?
pub open spec fn occurs_at(text: Seq<char>, part: Seq<char>, at: int) -> bool {
    0 <= at && at + part.len() <= text.len() && text.subrange(at, at + part.len()) == part
}

/// The place of the first `part` in `text` at or after `from`, if there is one.
pub open spec fn first_occurrence(text: Seq<char>, part: Seq<char>, from: int) -> Option<int>
    decreases text.len() + 1 - from,
{
    if from < 0 || from + part.len() > text.len() {
        None
    } else if occurs_at(text, part, from) {
        Some(from)
    } else {
        first_occurrence(text, part, from + 1)
    }
}

/// `first_occurrence` is the least place at or after `from`.
pub proof fn lemma_first_occurrence(text: Seq<char>, part: Seq<char>, from: int)
    requires
        0 <= from,
    ensures
        first_occurrence(text, part, from) matches Some(at) ==> from <= at && occurs_at(
            text,
            part,
            at,
        ) && forall|i: int| from <= i < at ==> !occurs_at(text, part, i),
        first_occurrence(text, part, from) is None ==> forall|i: int|
            from <= i ==> !occurs_at(text, part, i),
    decreases text.len() + 1 - from,
{
    if from + part.len() <= text.len() && !occurs_at(text, part, from) {
        lemma_first_occurrence(text, part, from + 1);
    }
}

/// The place of the first `part` in `chars`, if there is one.
pub fn find_text(chars: &Vec<char>, part: &str) -> (found: Option<usize>)
    ensures
        match found {
            Some(at) => first_occurrence(chars@, part@, 0) == Some(at as int) && at + part@.len()
                <= chars@.len(),
            None => first_occurrence(chars@, part@, 0) is None,
        },
{
    let letters = chars_of(part);
    if letters.len() > chars.len() {
        return None;
    }
    let last: usize = chars.len() - letters.len();
    let mut at: usize = 0;
    while at <= last
        invariant
            last == chars@.len() - part@.len(),
            letters@ == part@,
            at <= last + 1,
            first_occurrence(chars@, part@, 0) == first_occurrence(chars@, part@, at as int),
        decreases last + 1 - at,
    {
        if spelled_at(chars, at, &letters) {
            return Some(at);
        }
        if at == last {
            assert(first_occurrence(chars@, part@, at + 1) is None);
            return None;
        }
        at = at + 1;
    }
    None
}

/// Does `text` hold `part` anywhere?
pub fn contains_text(text: &str, part: &str) -> (found: bool)
    ensures
        found == (first_occurrence(text@, part@, 0) is Some),
{
    let chars = chars_of(text);
    match find_text(&chars, part) {
        Some(_) => true,
        None => false,
    }
}

/// The decimal digit `value`.
pub open spec fn digit_char(value: nat) -> char
    recommends
        value < 10,
{
    (('0' as u32) + value) as char
}

/// `value` in decimal, without leading zeros.
pub open spec fn dec(value: nat) -> Seq<char>
    decreases value,
{
    if value < 10 {
        seq![digit_char(value)]
    } else {
        dec(value / 10).push(digit_char(value % 10))
    }
}

fn push_digit(text: &mut String, value: u64)
    requires
        value < 10,
    ensures
        final(text)@ == old(text)@.push(digit_char(value as nat)),
{
    text.push((48u8 + value as u8) as char);
}

/// Append `value` in decimal.
pub fn push_dec(text: &mut String, value: u64)
    ensures
        final(text)@ == old(text)@ + dec(value as nat),
    decreases value,
{
    if value < 10 {
        push_digit(text, value);
        assert(text@ =~= old(text)@ + dec(value as nat));
    } else {
        push_dec(text, value / 10);
        push_digit(text, value % 10);
        assert(text@ =~= old(text)@ + dec(value as nat));
    }
}

/// Is `ch` a decimal digit?
pub open spec fn is_digit(ch: char) -> bool {
    '0' <= ch <= '9'
}

/// The number that a run of decimal digits spells.
pub open spec fn digits_value(digits: Seq<char>) -> nat
    decreases digits.len(),
{
    if digits.len() == 0 {
        0
    } else {
        digits_value(digits.drop_last()) * 10 + (digits.last() as u32 - '0' as u32) as nat
    }
}

/// One or more decimal digits and nothing else.
pub open spec fn all_digits(digits: Seq<char>) -> bool {
    digits.len() > 0 && forall|i: int| 0 <= i < digits.len() ==> is_digit(#[trigger] digits[i])
}

/// The digits of a number as it is read from text: one leading `+` is no
/// part of them.
pub open spec fn unsigned_digits(text: Seq<char>) -> Seq<char> {
    if text.len() > 0 && text[0] == '+' {
        text.drop_first()
    } else {
        text
    }
}

/// What `text` reads as, an unsigned number of at most `max`.
pub open spec fn parsed_dec(text: Seq<char>, max: nat) -> Option<nat> {
    let digits = unsigned_digits(text);
    if all_digits(digits) && digits_value(digits) <= max {
        Some(digits_value(digits))
    } else {
        None
    }
}

/// A run of digits never reads as less than one of its beginnings.
proof fn lemma_digits_grow(digits: Seq<char>, at: int)
    requires
        0 <= at <= digits.len(),
        forall|i: int| 0 <= i < digits.len() ==> is_digit(#[trigger] digits[i]),
    ensures
        digits_value(digits.take(at)) <= digits_value(digits),
    decreases digits.len() - at,
{
    if at < digits.len() {
        lemma_digits_grow(digits, at + 1);
        assert(digits.take(at + 1).drop_last() =~= digits.take(at));
    } else {
        assert(digits.take(at) =~= digits);
    }
}

/// Read `text` as a number of at most `max`: an optional `+`, then digits.
pub fn parse_dec(text: &str, max: u64) -> (value: Option<u64>)
    ensures
        value is Some <==> parsed_dec(text@, max as nat) is Some,
        value matches Some(value) ==> parsed_dec(text@, max as nat) == Some(value as nat),
{
    let chars = chars_of(text);
    let start: usize = if chars.len() > 0 && chars[0] == '+' {
        1
    } else {
        0
    };
    let ghost digits = unsigned_digits(text@);
    assert(digits =~= chars@.skip(start as int));
    if start == chars.len() {
        return None;
    }
    let mut value: u64 = 0;
    let mut at: usize = start;
    assert(digits.take(0) =~= Seq::<char>::empty());
    while at < chars.len()
        invariant
            start <= at <= chars@.len(),
            start < chars@.len(),
            chars@ == text@,
            digits == unsigned_digits(text@),
            digits == chars@.skip(start as int),
            forall|i: int| 0 <= i < at - start ==> is_digit(#[trigger] digits[i]),
            value as nat == digits_value(digits.take(at - start)),
            value <= max,
        decreases chars@.len() - at,
    {
        let ch = chars[at];
        assert(ch == digits[at - start]);
        if !('0' <= ch && ch <= '9') {
            return None;
        }
        let digit: u64 = ch as u64 - '0' as u64;
        let ghost next = digits.take(at + 1 - start);
        proof {
            assert(next.drop_last() =~= digits.take(at - start));
            assert(next.last() == ch);
            assert(digits_value(next) == value * 10 + digit);
        }
        if digit > max || value > max / 10 || value * 10 > max - digit {
            proof {
                assert(digits_value(next) > max);
                if all_digits(digits) {
                    lemma_digits_grow(digits, at + 1 - start);
                }
            }
            return None;
        }
        value = value * 10 + digit;
        at = at + 1;
    }
    assert(digits.take(at - start) =~= digits);
    Some(value)
}

/// A number in decimal is one or more digits, and they spell it.
pub proof fn lemma_dec(value: nat)
    ensures
        all_digits(dec(value)),
        digits_value(dec(value)) == value,
    decreases value,
{
    if value < 10 {
        assert(dec(value).drop_last() =~= Seq::<char>::empty());
        assert(digits_value(dec(value).drop_last()) == 0);
    } else {
        lemma_dec(value / 10);
        assert(dec(value).drop_last() =~= dec(value / 10));
        assert forall|i: int| 0 <= i < dec(value).len() implies is_digit(
            #[trigger] dec(value)[i],
        ) by {
            if i < dec(value).len() - 1 {
                assert(dec(value)[i] == dec(value / 10)[i]);
            }
        }
    }
}

/// A number that is written in decimal reads back.
pub proof fn law_decimal_reads_back(value: nat, max: nat)
    requires
        value <= max,
    ensures
        parsed_dec(dec(value), max) == Some(value),
{
    lemma_dec(value);
    assert(is_digit(dec(value)[0]));
}

/// The characters with the Unicode property `White_Space`.
pub open spec fn is_white(ch: char) -> bool {
    ||| '\u{9}' <= ch <= '\u{d}'
    ||| ch == ' '
    ||| ch == '\u{85}'
    ||| ch == '\u{a0}'
    ||| ch == '\u{1680}'
    ||| '\u{2000}' <= ch <= '\u{200a}'
    ||| ch == '\u{2028}'
    ||| ch == '\u{2029}'
    ||| ch == '\u{202f}'
    ||| ch == '\u{205f}'
    ||| ch == '\u{3000}'
}

/// Is `ch` white space?
pub fn white(ch: char) -> (found: bool)
    ensures
        found == is_white(ch),
{
    ('\u{9}' <= ch && ch <= '\u{d}') || ch == ' ' || ch == '\u{85}' || ch == '\u{a0}' || ch
        == '\u{1680}' || ('\u{2000}' <= ch && ch <= '\u{200a}') || ch == '\u{2028}' || ch
        == '\u{2029}' || ch == '\u{202f}' || ch == '\u{205f}' || ch == '\u{3000}'
}

/// `text` without the white space at its beginning.
pub open spec fn trimmed_start(text: Seq<char>) -> Seq<char>
    decreases text.len(),
{
    if text.len() > 0 && is_white(text[0]) {
        trimmed_start(text.drop_first())
    } else {
        text
    }
}

/// `text` without the white space at its end.
pub open spec fn trimmed_end(text: Seq<char>) -> Seq<char>
    decreases text.len(),
{
    if text.len() > 0 && is_white(text.last()) {
        trimmed_end(text.drop_last())
    } else {
        text
    }
}

/// `text` without the white space round it.
pub open spec fn trimmed(text: Seq<char>) -> Seq<char> {
    trimmed_end(trimmed_start(text))
}

/// `text` without the white space round it.
pub fn trim(text: &str) -> (rest: String)
    ensures
        rest@ == trimmed(text@),
{
    let chars = chars_of(text);
    let mut from: usize = 0;
    assert(chars@.skip(0) =~= text@);
    while from < chars.len() && white(chars[from])
        invariant
            from <= chars@.len(),
            trimmed_start(text@) == trimmed_start(chars@.skip(from as int)),
        decreases chars@.len() - from,
    {
        assert(chars@.skip(from as int).drop_first() =~= chars@.skip(from + 1));
        from = from + 1;
    }
    let ghost left = chars@.skip(from as int);
    assert(trimmed_start(text@) == left);
    let mut to: usize = chars.len();
    assert(chars@.subrange(from as int, to as int) =~= left);
    while from < to && white(chars[to - 1])
        invariant
            from <= to <= chars@.len(),
            trimmed_end(left) == trimmed_end(chars@.subrange(from as int, to as int)),
        decreases to,
    {
        let ghost held = chars@.subrange(from as int, to as int);
        assert(held.last() == chars@[to - 1]);
        assert(held.drop_last() =~= chars@.subrange(from as int, to - 1));
        to = to - 1;
    }
    assert(from < to ==> chars@.subrange(from as int, to as int).last() == chars@[to - 1]);
    slice_text(&chars, from, to)
}

/// The place of the first character of `text` at or after `from` that is
/// white space (`white`) or is not, or the end of `text`.
pub open spec fn run_end(text: Seq<char>, from: int, stop_at_white: bool) -> int
    decreases text.len() - from,
{
    if from >= text.len() || from < 0 {
        text.len() as int
    } else if is_white(text[from]) == stop_at_white {
        from
    } else {
        run_end(text, from + 1, stop_at_white)
    }
}

/// `run_end` lies at or after where it starts.
pub proof fn lemma_run_end(text: Seq<char>, from: int, stop_at_white: bool)
    requires
        0 <= from <= text.len(),
    ensures
        from <= run_end(text, from, stop_at_white) <= text.len(),
        run_end(text, from, stop_at_white) < text.len() ==> is_white(
            text[run_end(text, from, stop_at_white)],
        ) == stop_at_white,
    decreases text.len() - from,
{
    if from < text.len() && is_white(text[from]) != stop_at_white {
        lemma_run_end(text, from + 1, stop_at_white);
    }
}

/// The words of `text` at or after `from`: its runs without white space.
pub open spec fn words_from(text: Seq<char>, from: int) -> Seq<Seq<char>>
    decreases text.len() - from,
    when 0 <= from <= text.len()
    via words_from_decreases
{
    let start = run_end(text, from, false);
    if start >= text.len() {
        Seq::empty()
    } else {
        let end = run_end(text, start, true);
        seq![text.subrange(start, end)] + words_from(text, end)
    }
}

#[via_fn]
proof fn words_from_decreases(text: Seq<char>, from: int) {
    lemma_run_end(text, from, false);
    let start = run_end(text, from, false);
    lemma_run_end(text, start, true);
}

fn find_run(chars: &Vec<char>, from: usize, stop_at_white: bool) -> (at: usize)
    requires
        from <= chars@.len(),
    ensures
        from <= at <= chars@.len(),
        at == run_end(chars@, from as int, stop_at_white),
{
    let mut at: usize = from;
    while at < chars.len() && white(chars[at]) != stop_at_white
        invariant
            from <= at <= chars@.len(),
            run_end(chars@, from as int, stop_at_white) == run_end(
                chars@,
                at as int,
                stop_at_white,
            ),
        decreases chars@.len() - at,
    {
        at = at + 1;
    }
    at
}

/// The views of a list of strings.
pub open spec fn views(list: Seq<String>) -> Seq<Seq<char>> {
    list.map_values(|text: String| text@)
}

/// The words of `text`, in order.
pub fn words(text: &str) -> (list: Vec<String>)
    ensures
        views(list@) == words_from(text@, 0),
{
    let chars = chars_of(text);
    let mut list: Vec<String> = Vec::new();
    let mut at: usize = 0;
    assert(views(list@) + words_from(text@, 0) =~= words_from(text@, 0));
    loop
        invariant
            at <= chars@.len(),
            chars@ == text@,
            views(list@) + words_from(text@, at as int) == words_from(text@, 0),
        ensures
            views(list@) == words_from(text@, 0),
        decreases chars@.len() - at,
    {
        let start = find_run(&chars, at, false);
        proof {
            lemma_run_end(text@, at as int, false);
            lemma_run_end(text@, start as int, true);
        }
        if start >= chars.len() {
            assert(views(list@) + words_from(text@, at as int) =~= views(list@));
            break;
        }
        let end = find_run(&chars, start, true);
        let word = slice_text(&chars, start, end);
        let ghost before = views(list@);
        list.push(word);
        assert(views(list@) =~= before.push(word@));
        assert(views(list@) + words_from(text@, end as int) =~= before + (seq![word@] + words_from(
            text@,
            end as int,
        )));
        at = end;
    }
    list
}

/// `ch` in ASCII lower case.
pub open spec fn lower_char(ch: char) -> char {
    if 'A' <= ch <= 'Z' {
        (ch as u32 + 32) as char
    } else {
        ch
    }
}

/// `text` with its ASCII letters in lower case.
pub open spec fn lower(text: Seq<char>) -> Seq<char> {
    text.map_values(|ch: char| lower_char(ch))
}

/// `text` with its ASCII letters in lower case.
pub fn to_lower(text: &str) -> (out: String)
    ensures
        out@ == lower(text@),
{
    let chars = chars_of(text);
    let mut out = String::new();
    let mut at: usize = 0;
    while at < chars.len()
        invariant
            at <= chars@.len(),
            chars@ == text@,
            out@ == lower(text@).take(at as int),
        decreases chars@.len() - at,
    {
        let ch = chars[at];
        if 'A' <= ch && ch <= 'Z' {
            out.push((ch as u8 + 32) as char);
        } else {
            out.push(ch);
        }
        assert(out@ =~= lower(text@).take(at + 1));
        at = at + 1;
    }
    assert(out@ =~= lower(text@));
    out
}

/// The lower-case hexadecimal digit `value`.
pub open spec fn hex_char(value: nat) -> char
    recommends
        value < 16,
{
    if value < 10 {
        (48 + value) as char
    } else {
        (87 + value) as char
    }
}

/// `value` as exactly `width` lower-case hexadecimal digits.
pub open spec fn hex(value: nat, width: nat) -> Seq<char>
    decreases width,
{
    if width == 0 {
        Seq::empty()
    } else {
        hex(value / 16, (width - 1) as nat).push(hex_char(value % 16))
    }
}

/// Append `value` as `width` lower-case hexadecimal digits.
pub fn push_hex(text: &mut String, value: u64, width: usize)
    ensures
        final(text)@ == old(text)@ + hex(value as nat, width as nat),
    decreases width,
{
    if width > 0 {
        push_hex(text, value / 16, width - 1);
        let digit: u8 = (value % 16) as u8;
        if digit < 10 {
            text.push((48u8 + digit) as char);
        } else {
            text.push((87u8 + digit) as char);
        }
    }
    assert(text@ =~= old(text)@ + hex(value as nat, width as nat));
}

/// The digit that a hexadecimal character stands for, in either case.
pub open spec fn hex_digit(ch: char) -> Option<nat> {
    if '0' <= ch <= '9' {
        Some((ch as u32 - 48) as nat)
    } else if 'a' <= ch <= 'f' {
        Some((ch as u32 - 87) as nat)
    } else if 'A' <= ch <= 'F' {
        Some((ch as u32 - 55) as nat)
    } else {
        None
    }
}

/// The digit that a hexadecimal character stands for, in either case.
pub fn hex_digit_of(ch: char) -> (digit: Option<u8>)
    ensures
        digit is Some <==> hex_digit(ch) is Some,
        digit matches Some(digit) ==> hex_digit(ch) == Some(digit as nat) && digit < 16,
{
    if '0' <= ch && ch <= '9' {
        Some((ch as u8) - 48)
    } else if 'a' <= ch && ch <= 'f' {
        Some((ch as u8) - 87)
    } else if 'A' <= ch && ch <= 'F' {
        Some((ch as u8) - 55)
    } else {
        None
    }
}

/// The name that `Debug` gives to a string: quoted and escaped.
pub uninterp spec fn debug_quoted(text: Seq<char>) -> Seq<char>;

/// What `format!` writes for a string under `{:?}`. The result depends on the
/// string alone; the escapes themselves are not stated.
#[verifier::external_body]
pub(crate) fn debug_text(text: &str) -> (quoted: String)
    ensures
        quoted@ == debug_quoted(text@),
{
    format!("{text:?}")
}

/// A text is taken apart and put together character by character.
pub proof fn law_characters_are_kept(
    text: &str,
    chars: Vec<char>,
    from: usize,
    to: usize,
    slice: String,
    other: &str,
    equal: bool,
)
    requires
        call_ensures(chars_of, (text,), chars),
        from <= to <= chars@.len(),
        call_ensures(slice_text, (&chars, from, to), slice),
        call_ensures(same, (text, other), equal),
    ensures
        chars@.len() == text@.len(),
        forall|i: int| 0 <= i < text@.len() ==> #[trigger] chars@[i] == text@[i],
        slice@.len() == to - from,
        forall|i: int| 0 <= i < to - from ==> #[trigger] slice@[i] == text@[from + i],
        equal ==> text@.len() == other@.len() && forall|i: int|
            0 <= i < text@.len() ==> #[trigger] text@[i] == other@[i],
        text@ == other@ ==> equal,
{
}

/// A text begins with another exactly where their characters agree from the first
/// on, and what is left is what follows.
pub proof fn law_beginning_is_taken_off(text: &str, prefix: &str, found: bool, rest: Option<String>)
    requires
        call_ensures(starts_with, (text, prefix), found),
        call_ensures(strip_prefix, (text, prefix), rest),
    ensures
        found <==> prefix@.len() <= text@.len() && forall|i: int|
            0 <= i < prefix@.len() ==> #[trigger] prefix@[i] == text@[i],
        rest is Some <==> found,
        rest matches Some(rest) ==> text@ == prefix@ + rest@,
{
    if prefix@.len() <= text@.len() {
        let start = text@.subrange(0, prefix@.len() as int);
        assert(forall|i: int| 0 <= i < prefix@.len() ==> #[trigger] start[i] == text@[i]);
        if forall|i: int| 0 <= i < prefix@.len() ==> #[trigger] prefix@[i] == text@[i] {
            assert(start =~= prefix@);
        }
        if found {
            assert forall|i: int| 0 <= i < prefix@.len() implies #[trigger] prefix@[i]
                == text@[i] by {
                assert(start[i] == prefix@[i]);
            }
        }
    }
    if let Some(rest) = rest {
        assert(text@ =~= prefix@ + rest@);
    }
}

/// A text ends in another exactly where their characters agree to the last.
pub proof fn law_end_is_found(text: &str, suffix: &str, found: bool)
    requires
        call_ensures(ends_with, (text, suffix), found),
    ensures
        found <==> suffix@.len() <= text@.len() && forall|i: int|
            0 <= i < suffix@.len() ==> #[trigger] suffix@[i] == text@[text@.len() - suffix@.len()
                + i],
{
    if suffix@.len() <= text@.len() {
        let from = text@.len() - suffix@.len();
        let end = text@.subrange(from, text@.len() as int);
        assert(forall|i: int| 0 <= i < suffix@.len() ==> #[trigger] end[i] == text@[from + i]);
        if forall|i: int| 0 <= i < suffix@.len() ==> #[trigger] suffix@[i] == text@[from + i] {
            assert(end =~= suffix@);
        }
        if found {
            assert forall|i: int| 0 <= i < suffix@.len() implies #[trigger] suffix@[i]
                == text@[from + i] by {
                assert(end[i] == suffix@[i]);
            }
        }
    }
}

/// A mark is found where it first stands, and at the end where it does not.
pub proof fn law_first_mark_is_found(chars: Vec<char>, mark: char, from: usize, at: usize)
    requires
        from <= chars@.len(),
        call_ensures(find_char, (&chars, mark, from), at),
    ensures
        from <= at <= chars@.len(),
        forall|i: int| from <= i < at ==> #[trigger] chars@[i] != mark,
        at < chars@.len() ==> chars@[at as int] == mark,
{
    lemma_first_at(chars@, mark, from as int);
}

/// A part is found where it is first spelled out, and not where it nowhere is.
pub proof fn law_first_part_is_found(
    text: &str,
    chars: Vec<char>,
    part: &str,
    found: Option<usize>,
    held: bool,
    at: int,
)
    requires
        chars@ == text@,
        call_ensures(find_text, (&chars, part), found),
        call_ensures(contains_text, (text, part), held),
    ensures
        held <==> found is Some,
        found matches Some(place) ==> place + part@.len() <= text@.len() && forall|i: int|
            0 <= i < part@.len() ==> #[trigger] part@[i] == text@[place + i],
        0 <= at <= text@.len() - part@.len() && (forall|i: int|
            0 <= i < part@.len() ==> #[trigger] part@[i] == text@[at + i]) ==> (
        found matches Some(place) && place <= at),
{
    lemma_first_occurrence(text@, part@, 0);
    if let Some(place) = found {
        let spelled = text@.subrange(place as int, place + part@.len());
        assert forall|i: int| 0 <= i < part@.len() implies #[trigger] part@[i]
            == text@[place + i] by {
            assert(spelled[i] == text@[place + i]);
        }
    }
    if 0 <= at <= text@.len() - part@.len() && (forall|i: int|
        0 <= i < part@.len() ==> #[trigger] part@[i] == text@[at + i]) {
        assert(text@.subrange(at, at + part@.len()) =~= part@);
        assert(occurs_at(text@, part@, at));
    }
}

/// Parts put together with a mark between each two.
pub open spec fn joined(parts: Seq<Seq<char>>, mark: char) -> Seq<char>
    decreases parts.len(),
{
    if parts.len() == 0 {
        Seq::empty()
    } else if parts.len() == 1 {
        parts[0]
    } else {
        parts[0].push(mark) + joined(parts.drop_first(), mark)
    }
}

proof fn lemma_segments(text: Seq<char>, mark: char)
    ensures
        segments(text, mark).len() > 0,
        joined(segments(text, mark), mark) == text,
        forall|k: int|
            0 <= k < segments(text, mark).len() ==> !(#[trigger] segments(
                text,
                mark,
            )[k]).contains(mark),
    decreases text.len(),
{
    lemma_first_at(text, mark, 0);
    let end = first_at(text, mark, 0);
    let parts = segments(text, mark);
    if end < text.len() {
        let rest = text.subrange(end + 1, text.len() as int);
        lemma_segments(rest, mark);
        assert(parts.drop_first() =~= segments(rest, mark));
        assert(text =~= text.subrange(0, end).push(mark) + rest);
        assert forall|k: int| 0 <= k < parts.len() implies !(#[trigger] parts[k]).contains(
            mark,
        ) by {
            if k > 0 {
                assert(parts[k] == segments(rest, mark)[k - 1]);
            }
        }
    }
}

/// A text is split at every mark and nowhere else: no part holds the mark, and put
/// together again they are the text.
pub proof fn law_parts_make_up_the_text(text: &str, mark: char, parts: Vec<String>)
    requires
        call_ensures(split, (text, mark), parts),
    ensures
        parts@.len() > 0,
        forall|k: int| 0 <= k < parts@.len() ==> !(#[trigger] parts@[k])@.contains(mark),
        joined(views(parts@), mark) == text@,
{
    lemma_segments(text@, mark);
    assert forall|k: int| 0 <= k < parts@.len() implies !(#[trigger] parts@[k])@.contains(
        mark,
    ) by {
        assert(views(parts@)[k] == parts@[k]@);
    }
}

/// A number below ten is written as its digit, and any other as its tenth followed
/// by its last digit.
pub proof fn law_number_is_written_digit_by_digit(
    whole: &mut String,
    value: u64,
    front: &mut String,
    tenth: u64,
)
    requires
        call_ensures(push_dec, (whole, value), ()),
        tenth == value / 10,
        *old(front) == *old(whole),
        call_ensures(push_dec, (front, tenth), ()),
    ensures
        value < 10 ==> final(whole)@.len() == old(whole)@.len() + 1,
        final(whole)@.last() as u32 == 48 + value % 10,
        value < 10 ==> final(whole)@.drop_last() == old(whole)@,
        value >= 10 ==> final(whole)@.drop_last() == final(front)@,
{
    let last = (value % 10) as nat;
    assert(digit_char(last) as u32 == 48 + last);
    if value < 10 {
        assert(final(whole)@ =~= old(whole)@.push(digit_char(last)));
        assert(final(whole)@.drop_last() =~= old(whole)@);
    } else {
        assert(dec(value as nat) == dec(tenth as nat).push(digit_char(last)));
        assert(final(whole)@.drop_last() =~= old(whole)@ + dec(tenth as nat));
    }
}

/// A number is read digit by digit: a further digit makes it ten times as large and
/// adds itself, up to the most that is allowed, and anything else makes it none.
pub proof fn law_number_is_read_digit_by_digit(
    text: &str,
    value: Option<u64>,
    longer: &str,
    further: char,
    read: Option<u64>,
    max: u64,
)
    requires
        text@.len() > 0,
        text@ != seq!['+'],
        longer@ == text@.push(further),
        call_ensures(parse_dec, (text, max), value),
        call_ensures(parse_dec, (longer, max), read),
    ensures
        read is Some <==> value is Some && '0' <= further <= '9' && value->0 * 10 + (further as u32
            - 48) <= max,
        read matches Some(read) ==> read == value->0 * 10 + (further as u32 - 48),
{
    let short = unsigned_digits(text@);
    let long = unsigned_digits(longer@);
    assert(longer@[0] == text@[0]);
    assert(long =~= short.push(further));
    assert(long.drop_last() =~= short);
    assert(long.last() == further);
    if text@[0] == '+' && text@.len() == 1 {
        assert(text@ =~= seq!['+']);
    }
    assert(short.len() > 0);
    assert forall|i: int| 0 <= i < short.len() implies #[trigger] long[i] == short[i] by {}
    if all_digits(long) {
        assert forall|i: int| 0 <= i < short.len() implies is_digit(#[trigger] short[i]) by {
            assert(is_digit(long[i]));
        }
        assert(is_digit(long[long.len() - 1]));
    }
    if all_digits(short) && is_digit(further) {
        assert forall|i: int| 0 <= i < long.len() implies is_digit(#[trigger] long[i]) by {
            if i < short.len() {
                assert(is_digit(short[i]));
            }
        }
    }
}

/// One character reads as its digit, with or without a sign before it, and nothing
/// reads as no number.
pub proof fn law_one_digit_is_read(
    text: &str,
    signed: &str,
    digit: char,
    value: Option<u64>,
    also: Option<u64>,
    nothing: &str,
    none: Option<u64>,
    max: u64,
)
    requires
        text@ == seq![digit],
        signed@ == seq!['+', digit],
        nothing@.len() == 0 || nothing@ == seq!['+'],
        call_ensures(parse_dec, (text, max), value),
        call_ensures(parse_dec, (signed, max), also),
        call_ensures(parse_dec, (nothing, max), none),
    ensures
        value is Some <==> '0' <= digit <= '9' && digit as u32 - 48 <= max,
        value matches Some(value) ==> value == digit as u32 - 48,
        also == value,
        none is None,
{
    reveal_with_fuel(digits_value, 2);
    assert(signed@.drop_first() =~= seq![digit]);
    let one = seq![digit];
    assert(one.drop_last() =~= Seq::<char>::empty());
    if digit == '+' {
        assert(one.drop_first() =~= Seq::<char>::empty());
        assert(!is_digit(one[0]));
    } else {
        assert(unsigned_digits(text@) == one);
    }
    assert(all_digits(one) <==> is_digit(digit)) by {
        assert(one[0] == digit);
    }
    if nothing@.len() > 0 {
        assert(nothing@.drop_first() =~= Seq::<char>::empty());
    }
}

/// In ASCII the white characters are the tabulators, the line and page ends and the
/// space; beyond it the spaces and separators of Unicode.
pub proof fn law_white_characters(ch: char, found: bool)
    requires
        call_ensures(white, (ch,), found),
    ensures
        (ch as u32) < 128 ==> (found <==> ch as u32 == 32 || 9 <= ch as u32 <= 13),
        (ch as u32) >= 128 ==> (found <==> seq![
            0x85u32,
            0xa0,
            0x1680,
            0x2000,
            0x2001,
            0x2002,
            0x2003,
            0x2004,
            0x2005,
            0x2006,
            0x2007,
            0x2008,
            0x2009,
            0x200a,
            0x2028,
            0x2029,
            0x202f,
            0x205f,
            0x3000,
        ].contains(ch as u32)),
{
    let marks = seq![
        0x85u32,
        0xa0,
        0x1680,
        0x2000,
        0x2001,
        0x2002,
        0x2003,
        0x2004,
        0x2005,
        0x2006,
        0x2007,
        0x2008,
        0x2009,
        0x200a,
        0x2028,
        0x2029,
        0x202f,
        0x205f,
        0x3000,
    ];
    let code = ch as u32;
    assert(marks.len() == 19);
    assert(marks[0] == 0x85 && marks[1] == 0xa0 && marks[2] == 0x1680 && marks[3] == 0x2000
        && marks[4] == 0x2001 && marks[5] == 0x2002 && marks[6] == 0x2003 && marks[7] == 0x2004
        && marks[8] == 0x2005 && marks[9] == 0x2006 && marks[10] == 0x2007 && marks[11] == 0x2008
        && marks[12] == 0x2009 && marks[13] == 0x200a && marks[14] == 0x2028 && marks[15] == 0x2029
        && marks[16] == 0x202f && marks[17] == 0x205f && marks[18] == 0x3000);
    if code >= 128 && found {
        if 0x2000 <= code <= 0x200a {
            assert(marks[3 + (code - 0x2000)] == code);
        }
    }
}

proof fn lemma_trimmed_start(text: Seq<char>) -> (front: int)
    ensures
        0 <= front <= text.len(),
        trimmed_start(text) == text.skip(front),
        forall|i: int| 0 <= i < front ==> is_white(#[trigger] text[i]),
        front < text.len() ==> !is_white(text[front]),
    decreases text.len(),
{
    if text.len() > 0 && is_white(text[0]) {
        let rest = text.drop_first();
        let front = lemma_trimmed_start(rest);
        assert(rest.skip(front) =~= text.skip(front + 1));
        assert forall|i: int| 0 <= i < front + 1 implies is_white(#[trigger] text[i]) by {
            if i > 0 {
                assert(rest[i - 1] == text[i]);
            }
        }
        front + 1
    } else {
        assert(text.skip(0) =~= text);
        0
    }
}

proof fn lemma_trimmed_end(text: Seq<char>) -> (kept: int)
    ensures
        0 <= kept <= text.len(),
        trimmed_end(text) == text.take(kept),
        forall|i: int| kept <= i < text.len() ==> is_white(#[trigger] text[i]),
        kept > 0 ==> !is_white(text[kept - 1]),
    decreases text.len(),
{
    if text.len() > 0 && is_white(text.last()) {
        let rest = text.drop_last();
        let kept = lemma_trimmed_end(rest);
        assert(rest.take(kept) =~= text.take(kept));
        assert forall|i: int| kept <= i < text.len() implies is_white(#[trigger] text[i]) by {
            if i < rest.len() {
                assert(rest[i] == text[i]);
            }
        }
        kept
    } else {
        assert(text.take(text.len() as int) =~= text);
        text.len() as int
    }
}

/// A trimmed text is a part of the text with nothing but white characters before
/// and behind it, and neither begins nor ends in one.
pub proof fn law_only_white_is_trimmed(text: &str, rest: String)
    requires
        call_ensures(trim, (text,), rest),
    ensures
        exists|from: int, to: int|
            0 <= from <= to <= text@.len() && rest@ == #[trigger] text@.subrange(from, to) && (
            forall|i: int|
                0 <= i < from || to <= i < text@.len() ==> is_white(#[trigger] text@[i])),
        rest@.len() > 0 ==> !is_white(rest@[0]) && !is_white(rest@.last()),
{
    let from = lemma_trimmed_start(text@);
    let left = text@.skip(from);
    let kept = lemma_trimmed_end(left);
    assert(rest@ =~= text@.subrange(from, from + kept));
    assert forall|i: int| 0 <= i < from || from + kept <= i < text@.len() implies is_white(
        #[trigger] text@[i],
    ) by {
        if i >= from {
            assert(left[i - from] == text@[i]);
        }
    }
}

proof fn lemma_run_ends(text: Seq<char>, from: int, stop_at_white: bool)
    requires
        0 <= from <= text.len(),
    ensures
        from <= run_end(text, from, stop_at_white) <= text.len(),
        run_end(text, from, stop_at_white) < text.len() ==> is_white(
            text[run_end(text, from, stop_at_white)],
        ) == stop_at_white,
        forall|i: int|
            from <= i < run_end(text, from, stop_at_white) ==> is_white(#[trigger] text[i])
                != stop_at_white,
    decreases text.len() - from,
{
    if from < text.len() && is_white(text[from]) != stop_at_white {
        lemma_run_ends(text, from + 1, stop_at_white);
    }
}

proof fn lemma_run_end_in_rest(text: Seq<char>, start: int, at: int, stop_at_white: bool)
    requires
        0 <= start <= at <= text.len(),
    ensures
        run_end(text.skip(start), at - start, stop_at_white) == run_end(text, at, stop_at_white)
            - start,
    decreases text.len() - at,
{
    if at < text.len() && is_white(text[at]) != stop_at_white {
        lemma_run_end_in_rest(text, start, at + 1, stop_at_white);
    }
}

proof fn lemma_words_in_rest(text: Seq<char>, start: int, at: int)
    requires
        0 <= start <= at <= text.len(),
    ensures
        words_from(text.skip(start), at - start) == words_from(text, at),
    decreases text.len() - at,
{
    lemma_run_end_in_rest(text, start, at, false);
    lemma_run_ends(text, at, false);
    let begin = run_end(text, at, false);
    if begin < text.len() {
        lemma_run_end_in_rest(text, start, begin, true);
        lemma_run_ends(text, begin, true);
        let end = run_end(text, begin, true);
        assert(text.skip(start).subrange(begin - start, end - start) =~= text.subrange(begin, end));
        lemma_words_in_rest(text, start, end);
    }
}

/// The words of a text do not change where white space is taken off its beginning.
/// A run without white space is one word, alone or before white space and the words
/// of what follows, and where there is nothing there is no word.
pub proof fn law_words_are_the_runs_between_white_space(
    text: &str,
    list: Vec<String>,
    rest: &str,
    further: Vec<String>,
    word: Seq<char>,
    space: char,
)
    requires
        call_ensures(words, (text,), list),
        call_ensures(words, (rest,), further),
        forall|i: int| 0 <= i < word.len() ==> !is_white(#[trigger] word[i]),
        is_white(space),
    ensures
        text@.len() == 0 ==> list@.len() == 0,
        text@ == seq![space] + rest@ ==> views(list@) == views(further@),
        word.len() > 0 && text@ == word ==> views(list@) == seq![word],
        word.len() > 0 && text@ == word.push(space) + rest@ ==> views(list@) == seq![word] + views(
            further@,
        ),
{
    lemma_run_ends(text@, 0, false);
    let begin = run_end(text@, 0, false);
    lemma_run_ends(text@, begin, true);
    let end = run_end(text@, begin, true);
    if text@.len() == 0 {
        assert(views(list@).len() == list@.len());
    }
    if text@ == seq![space] + rest@ {
        assert(text@[0] == space);
        assert(text@.skip(1) =~= rest@);
        lemma_words_in_rest(text@, 1, 1);
        assert(run_end(text@, 0, false) == run_end(text@, 1, false));
        assert(words_from(text@, 0) == words_from(text@, 1));
    }
    if word.len() > 0 && text@ == word {
        assert(text@[0] == word[0]);
        assert(begin == 0);
        if end < text@.len() {
            assert(!is_white(word[end]));
        }
        assert(text@.subrange(0, end) =~= word);
        lemma_run_ends(text@, end, false);
        assert(words_from(text@, end) =~= Seq::<Seq<char>>::empty());
        assert(words_from(text@, 0) =~= seq![word]);
    }
    if word.len() > 0 && text@ == word.push(space) + rest@ {
        let count = word.len() as int;
        assert(text@[0] == word[0]);
        assert(begin == 0);
        assert(text@[count] == space);
        if end < count {
            assert(text@[end] == word[end]);
        }
        if end > count {
            assert(is_white(text@[count]));
        }
        assert(end == count);
        assert(text@.subrange(0, count) =~= word);
        assert(text@.skip(count + 1) =~= rest@);
        lemma_words_in_rest(text@, count + 1, count + 1);
        assert(run_end(text@, count, false) == run_end(text@, count + 1, false));
        assert(words_from(text@, count) == words_from(text@, count + 1));
    }
}

/// In lower case a capital letter of ASCII becomes the letter 32 further on, and
/// every other character stays.
pub proof fn law_only_capitals_are_lowered(text: &str, out: String, at: int)
    requires
        call_ensures(to_lower, (text,), out),
        0 <= at < text@.len(),
    ensures
        out@.len() == text@.len(),
        65 <= text@[at] as u32 <= 90 ==> out@[at] as u32 == text@[at] as u32 + 32,
        !(65 <= text@[at] as u32 <= 90) ==> out@[at] == text@[at],
{
}

/// A number in hexadecimal is its sixteenth followed by its last digit: 0 to 9, then
/// a to f.
pub proof fn law_number_is_written_in_hexadecimal(
    whole: &mut String,
    value: u64,
    width: usize,
    front: &mut String,
    rest: u64,
    shorter: usize,
)
    requires
        call_ensures(push_hex, (whole, value, width), ()),
        rest == value / 16,
        width > 0 ==> shorter == width - 1,
        *old(front) == *old(whole),
        call_ensures(push_hex, (front, rest, shorter), ()),
    ensures
        final(whole)@.len() == old(whole)@.len() + width,
        width == 0 ==> final(whole)@ == old(whole)@,
        width > 0 ==> final(whole)@.drop_last() == final(front)@,
        width > 0 && value % 16 < 10 ==> final(whole)@.last() as u32 == 48 + value % 16,
        width > 0 && value % 16 >= 10 ==> final(whole)@.last() as u32 == 97 + (value % 16 - 10),
{
    lemma_hex_len(value as nat, width as nat);
    if width > 0 {
        let last = (value % 16) as nat;
        assert(hex(value as nat, width as nat) == hex(rest as nat, shorter as nat).push(
            hex_char(last),
        ));
        assert(final(whole)@.drop_last() =~= old(whole)@ + hex(rest as nat, shorter as nat));
        assert(final(whole)@.last() == hex_char(last));
    } else {
        assert(final(whole)@ =~= old(whole)@);
    }
}

proof fn lemma_hex_len(value: nat, width: nat)
    ensures
        hex(value, width).len() == width,
    decreases width,
{
    if width > 0 {
        lemma_hex_len(value / 16, (width - 1) as nat);
    }
}

/// The hexadecimal digits are 0 to 9, a to f and A to F, and no other character.
pub proof fn law_hexadecimal_digits(ch: char, digit: Option<u8>)
    requires
        call_ensures(hex_digit_of, (ch,), digit),
    ensures
        48 <= ch as u32 <= 57 ==> (digit matches Some(digit) && digit == ch as u32 - 48),
        97 <= ch as u32 <= 102 ==> (digit matches Some(digit) && digit == 10 + (ch as u32 - 97)),
        65 <= ch as u32 <= 70 ==> (digit matches Some(digit) && digit == 10 + (ch as u32 - 65)),
        digit is Some ==> 48 <= ch as u32 <= 57 || 97 <= ch as u32 <= 102 || 65 <= ch as u32 <= 70,
{
}

} // verus!
