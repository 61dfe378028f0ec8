//! Text building blocks: decimal numbers, trimming, digit filtering and the
//! other small string operations that the rest of the crate is written in.

use vstd::prelude::*;

verus! {

/// `String::push` appends one character at the end and changes nothing else.
pub assume_specification[ String::push ](s: &mut String, ch: char)
    ensures
        final(s)@ == old(s)@.push(ch),
;

/// The decimal digits.
pub open spec fn is_digit(c: char) -> bool {
    '0' <= c && c <= '9'
}

/// The value of a decimal digit.
pub open spec fn digit_value(c: char) -> nat {
    (c as int - '0' as int) as nat
}

/// The character that writes the digit `d`.
pub open spec fn digit_char(d: nat) -> char {
    if d == 0 {
        '0'
    } else if d == 1 {
        '1'
    } else if d == 2 {
        '2'
    } else if d == 3 {
        '3'
    } else if d == 4 {
        '4'
    } else if d == 5 {
        '5'
    } else if d == 6 {
        '6'
    } else if d == 7 {
        '7'
    } else if d == 8 {
        '8'
    } else {
        '9'
    }
}

/// `n` written in decimal, without leading zeros.
pub open spec fn decimal(n: nat) -> Seq<char>
    decreases n,
{
    if n < 10 {
        seq![digit_char(n)]
    } else {
        decimal(n / 10).push(digit_char(n % 10))
    }
}

/// The number that a run of digits writes in decimal.
pub open spec fn decimal_value(s: Seq<char>) -> nat
    decreases s.len(),
{
    if s.len() == 0 {
        0
    } else {
        decimal_value(s.drop_last()) * 10 + digit_value(s.last())
    }
}

/// Every character is a decimal digit.
pub open spec fn all_digits(s: Seq<char>) -> bool {
    forall|i: int| 0 <= i < s.len() ==> is_digit(#[trigger] s[i])
}

fn digit_char_of(d: u64) -> (c: char)
    requires
        d < 10,
    ensures
        c == digit_char(d as nat),
        is_digit(c),
        digit_value(c) == d,
{
    match d {
        0 => '0',
        1 => '1',
        2 => '2',
        3 => '3',
        4 => '4',
        5 => '5',
        6 => '6',
        7 => '7',
        8 => '8',
        _ => '9',
    }
}

/// Appends `n` in decimal.
pub fn push_decimal(out: &mut String, n: u64)
    ensures
        final(out)@ == old(out)@ + decimal(n as nat),
    decreases n,
{
    if n >= 10 {
        push_decimal(out, n / 10);
    }
    let ghost before = out@;
    out.push(digit_char_of(n % 10));
    proof {
        if n >= 10 {
            assert(out@ =~= old(out)@ + decimal(n as nat));
        } else {
            assert(out@ =~= old(out)@ + decimal(n as nat));
        }
    }
}

/// A signed number in decimal, with a minus sign where it is negative.
pub open spec fn signed_decimal(n: int) -> Seq<char> {
    if n < 0 {
        seq!['-'] + decimal((-n) as nat)
    } else {
        decimal(n as nat)
    }
}

/// Appends `n` in decimal, with a minus sign where it is negative.
pub fn push_signed(out: &mut String, n: i64)
    ensures
        final(out)@ == old(out)@ + signed_decimal(n as int),
{
    if n < 0 {
        out.push('-');
        // The magnitude of the smallest number does not fit its own type.
        let magnitude: u64 = if n == i64::MIN {
            0x8000_0000_0000_0000
        } else {
            (-n) as u64
        };
        push_decimal(out, magnitude);
        assert(out@ =~= old(out)@ + signed_decimal(n as int));
    } else {
        push_decimal(out, n as u64);
    }
}

/// `n` written in decimal.
pub fn decimal_text(n: u64) -> (out: String)
    ensures
        out@ == decimal(n as nat),
{
    let mut out = String::new();
    push_decimal(&mut out, n);
    assert(out@ =~= decimal(n as nat));
    out
}

/// The characters of a string.
pub fn chars_of(s: &str) -> (out: Vec<char>)
    ensures
        out@ == s@,
{
    let mut out: Vec<char> = Vec::new();
    for c in it: s.chars()
        invariant
            it.seq() == s@,
            out@ == s@.take(it.index()),
    {
        out.push(c);
        assert(s@.take(it.index() + 1) =~= s@.take(it.index()).push(c));
    }
    assert(s@.take(s@.len() as int) =~= s@);
    out
}

/// The string that some characters make.
pub fn string_of(chars: &[char]) -> (out: String)
    ensures
        out@ == chars@,
{
    let mut out = String::new();
    let mut i: usize = 0;
    while i < chars.len()
        invariant
            i <= chars.len(),
            out@ == chars@.take(i as int),
        decreases chars.len() - i,
    {
        out.push(chars[i]);
        assert(chars@.take(i + 1) =~= chars@.take(i as int).push(chars@[i as int]));
        i += 1;
    }
    assert(chars@.take(i as int) =~= chars@);
    out
}

/// Appends a piece of text.
pub fn push_text(out: &mut String, piece: &str)
    ensures
        final(out)@ == old(out)@ + piece@,
{
    out.append(piece);
}

/// An owned string with the same text.
pub fn owned(piece: &str) -> (out: String)
    ensures
        out@ == piece@,
{
    piece.to_owned()
}

/// Whether two pieces of text are the same.
pub fn same_text(a: &str, b: &str) -> (same: bool)
    ensures
        same == (a@ == b@),
{
    a.to_owned() == b.to_owned()
}

/// The digits of a text, in order, with everything else dropped.
pub open spec fn digits_of(s: Seq<char>) -> Seq<char> {
    s.filter(|c: char| is_digit(c))
}

/// Keeps the decimal digits of `text` and drops every other character.
pub fn digits_only(text: &str) -> (digits: String)
    ensures
        digits@ == digits_of(text@),
        all_digits(digits@),
{
    let chars = chars_of(text);
    let mut digits = String::new();
    let mut i: usize = 0;
    proof {
        assert(chars@.take(0) =~= Seq::<char>::empty());
        reveal(Seq::filter);
    }
    while i < chars.len()
        invariant
            i <= chars.len(),
            chars@ == text@,
            digits@ == digits_of(chars@.take(i as int)),
            all_digits(digits@),
        decreases chars.len() - i,
    {
        let c = chars[i];
        proof {
            reveal(Seq::filter);
            assert(chars@.take(i + 1).drop_last() =~= chars@.take(i as int));
        }
        if '0' <= c && c <= '9' {
            digits.push(c);
        }
        i += 1;
    }
    assert(chars@.take(i as int) =~= text@);
    digits
}

/// Reading a decimal back gives the number that was written, so different
/// numbers are written differently.
pub proof fn decimal_reads_back(n: nat)
    ensures
        decimal_value(decimal(n)) == n,
        all_digits(decimal(n)),
        decimal(n).len() > 0,
    decreases n,
{
    if n >= 10 {
        decimal_reads_back(n / 10);
        let head = decimal(n / 10);
        assert(decimal(n) =~= head.push(digit_char(n % 10)));
        assert(decimal(n).drop_last() =~= head);
        assert(decimal(n).last() == digit_char(n % 10));
        assert(digit_value(digit_char(n % 10)) == n % 10);
    } else {
        assert(decimal(n).drop_last() =~= Seq::<char>::empty());
        assert(decimal(n).last() == digit_char(n));
        assert(decimal_value(Seq::<char>::empty()) == 0);
    }
}

/// Filtering a second time changes nothing.
pub proof fn digits_of_digits(s: Seq<char>)
    ensures
        all_digits(digits_of(s)),
        digits_of(digits_of(s)) == digits_of(s),
        all_digits(s) ==> digits_of(s) == s,
    decreases s.len(),
{
    reveal(Seq::filter);
    if s.len() > 0 {
        digits_of_digits(s.drop_last());
        let sub = digits_of(s.drop_last());
        if is_digit(s.last()) {
            assert(digits_of(s) == sub.push(s.last()));
            assert(sub.push(s.last()).drop_last() =~= sub);
            assert(digits_of(sub.push(s.last())) == digits_of(sub).push(s.last()));
        }
        if all_digits(s) {
            assert(all_digits(s.drop_last())) by {
                assert forall|i: int| 0 <= i < s.drop_last().len() implies is_digit(
                    #[trigger] s.drop_last()[i],
                ) by {
                    assert(s.drop_last()[i] == s[i]);
                }
            }
            assert(s =~= s.drop_last().push(s.last()));
        }
    }
}

/// The texts of a list.
pub open spec fn texts(list: Seq<String>) -> Seq<Seq<char>> {
    Seq::new(list.len(), |i: int| list[i]@)
}

/// The text of a string that may be missing.
pub open spec fn optional_text(s: Option<String>) -> Option<Seq<char>> {
    match s {
        Some(t) => Some(t@),
        None => None,
    }
}

/// Texts one after the other, with a separator between them.
pub open spec fn joined(list: Seq<Seq<char>>, separator: Seq<char>) -> Seq<char>
    decreases list.len(),
{
    if list.len() == 0 {
        Seq::empty()
    } else if list.len() == 1 {
        list[0]
    } else {
        joined(list.drop_last(), separator) + separator + list.last()
    }
}

/// Puts texts one after the other, with a separator between them.
pub fn join(list: &Vec<String>, separator: &str) -> (out: String)
    ensures
        out@ == joined(texts(list@), separator@),
{
    let mut out = String::new();
    let mut i: usize = 0;
    proof {
        assert(texts(list@).take(0) =~= Seq::<Seq<char>>::empty());
    }
    while i < list.len()
        invariant
            i <= list@.len(),
            out@ == joined(texts(list@).take(i as int), separator@),
        decreases list@.len() - i,
    {
        proof {
            assert(texts(list@).take(i + 1).drop_last() =~= texts(list@).take(i as int));
            assert(texts(list@).take(i + 1).last() == list@[i as int]@);
        }
        if i > 0 {
            push_text(&mut out, separator);
        }
        push_text(&mut out, list[i].as_str());
        proof {
            if i == 0 {
                assert(Seq::<char>::empty() + list@[0]@ =~= list@[0]@);
            }
        }
        i += 1;
    }
    assert(texts(list@).take(i as int) =~= texts(list@));
    out
}

/// A copy of a string that may be missing.
pub fn copy_optional(s: &Option<String>) -> (copy: Option<String>)
    ensures
        copy == *s,
{
    match s {
        Some(t) => Some(t.clone()),
        None => None,
    }
}

/// A copy of a list of strings.
pub fn copy_list(list: &Vec<String>) -> (copy: Vec<String>)
    ensures
        copy@ == list@,
{
    let mut copy: Vec<String> = Vec::new();
    let mut i: usize = 0;
    while i < list.len()
        invariant
            i <= list@.len(),
            copy@ == list@.take(i as int),
        decreases list@.len() - i,
    {
        copy.push(list[i].clone());
        assert(list@.take(i + 1) =~= list@.take(i as int).push(list@[i as int]));
        i += 1;
    }
    assert(list@.take(i as int) =~= list@);
    copy
}

/// The characters that count as white space.
pub open spec fn is_space(c: char) -> bool {
    ('\u{9}' <= c && c <= '\u{d}') || c == ' ' || c == '\u{85}' || c == '\u{a0}' || c == '\u{1680}'
        || ('\u{2000}' <= c && c <= '\u{200a}') || c == '\u{2028}' || c == '\u{2029}' || c
        == '\u{202f}' || c == '\u{205f}' || c == '\u{3000}'
}

fn space(c: char) -> (is: bool)
    ensures
        is == is_space(c),
{
    ('\u{9}' <= c && c <= '\u{d}') || c == ' ' || c == '\u{85}' || c == '\u{a0}' || c == '\u{1680}'
        || ('\u{2000}' <= c && c <= '\u{200a}') || c == '\u{2028}' || c == '\u{2029}' || c
        == '\u{202f}' || c == '\u{205f}' || c == '\u{3000}'
}

/// The text without the white space that it starts with.
pub open spec fn trimmed_start(s: Seq<char>) -> Seq<char>
    decreases s.len(),
{
    if s.len() > 0 && is_space(s[0]) {
        trimmed_start(s.drop_first())
    } else {
        s
    }
}

/// The text without the white space that it ends with.
pub open spec fn trimmed_end(s: Seq<char>) -> Seq<char>
    decreases s.len(),
{
    if s.len() > 0 && is_space(s.last()) {
        trimmed_end(s.drop_last())
    } else {
        s
    }
}

/// The text without the white space around it.
pub open spec fn trimmed(s: Seq<char>) -> Seq<char> {
    trimmed_end(trimmed_start(s))
}

/// The characters without the white space around them.
pub fn trim_chars(chars: &[char]) -> (out: Vec<char>)
    ensures
        out@ == trimmed(chars@),
{
    let mut start: usize = 0;
    let mut end: usize = chars.len();
    proof {
        assert(chars@.skip(0) =~= chars@);
    }
    while start < end && space(chars[start])
        invariant
            start <= end,
            end == chars@.len(),
            trimmed_start(chars@) == trimmed_start(chars@.skip(start as int)),
        decreases end - start,
    {
        proof {
            assert(chars@.skip(start as int)[0] == chars@[start as int]);
            assert(chars@.skip(start as int).drop_first() =~= chars@.skip(start + 1));
        }
        start += 1;
    }
    proof {
        assert(start < end ==> chars@.skip(start as int)[0] == chars@[start as int]);
        assert(trimmed_start(chars@) == chars@.skip(start as int));
        assert(chars@.skip(start as int) =~= chars@.subrange(start as int, end as int));
    }
    while end > start && space(chars[end - 1])
        invariant
            start <= end <= chars@.len(),
            trimmed(chars@) == trimmed_end(chars@.subrange(start as int, end as int)),
        decreases end,
    {
        proof {
            let part = chars@.subrange(start as int, end as int);
            assert(part.last() == chars@[end - 1]);
            assert(part.drop_last() =~= chars@.subrange(start as int, end - 1));
        }
        end -= 1;
    }
    proof {
        let part = chars@.subrange(start as int, end as int);
        assert(end > start ==> part.last() == chars@[end - 1]);
        assert(trimmed(chars@) == part);
    }
    let mut out: Vec<char> = Vec::new();
    let mut i: usize = start;
    while i < end
        invariant
            start <= i <= end <= chars@.len(),
            out@ == chars@.subrange(start as int, i as int),
        decreases end - i,
    {
        out.push(chars[i]);
        assert(chars@.subrange(start as int, i + 1) =~= chars@.subrange(start as int, i as int).push(
            chars@[i as int],
        ));
        i += 1;
    }
    out
}

/// The text without the white space around it.
pub fn trim(s: &str) -> (out: String)
    ensures
        out@ == trimmed(s@),
{
    let chars = chars_of(s);
    let rest = trim_chars(chars.as_slice());
    string_of(rest.as_slice())
}

/// Nothing is left to trim from a trimmed text.
pub proof fn trimmed_has_no_space_around(s: Seq<char>)
    ensures
        trimmed(s).len() > 0 ==> !is_space(trimmed(s)[0]) && !is_space(trimmed(s).last()),
        trimmed(trimmed(s)) == trimmed(s),
{
    lemma_trimmed_start(s);
    lemma_trimmed_end(trimmed_start(s));
    let t = trimmed(s);
    if t.len() > 0 {
        assert(t[0] == trimmed_start(s)[0]);
    }
    assert(trimmed_start(t) == t);
    assert(trimmed_end(t) == t);
}

proof fn lemma_trimmed_start(s: Seq<char>)
    ensures
        trimmed_start(s).len() > 0 ==> !is_space(trimmed_start(s)[0]),
    decreases s.len(),
{
    if s.len() > 0 && is_space(s[0]) {
        lemma_trimmed_start(s.drop_first());
    }
}

proof fn lemma_trimmed_end(s: Seq<char>)
    ensures
        trimmed_end(s).len() > 0 ==> !is_space(trimmed_end(s).last()),
        trimmed_end(s).len() <= s.len(),
        trimmed_end(s) == s.take(trimmed_end(s).len() as int),
    decreases s.len(),
{
    if s.len() > 0 && is_space(s.last()) {
        lemma_trimmed_end(s.drop_last());
        assert(s.drop_last().take(trimmed_end(s).len() as int) =~= s.take(
            trimmed_end(s).len() as int,
        ));
    } else {
        assert(s.take(s.len() as int) =~= s);
    }
}

/// The digits that a plus sign may stand before.
pub open spec fn unsigned_digits(s: Seq<char>) -> Seq<char> {
    if s.len() > 1 && s[0] == '+' {
        s.drop_first()
    } else {
        s
    }
}

/// The number that a text writes, if it is digits, with or without a plus sign
/// before them, and no larger than `max`.
pub open spec fn read_unsigned(s: Seq<char>, max: nat) -> Option<nat> {
    let digits = unsigned_digits(s);
    if digits.len() > 0 && all_digits(digits) && decimal_value(digits) <= max {
        Some(decimal_value(digits))
    } else {
        None
    }
}

proof fn lemma_value_grows(s: Seq<char>, n: int)
    requires
        0 <= n <= s.len(),
    ensures
        decimal_value(s.take(n)) <= decimal_value(s),
    decreases s.len(),
{
    if n == s.len() {
        assert(s.take(n) =~= s);
    } else {
        lemma_value_grows(s.drop_last(), n);
        assert(s.drop_last().take(n) =~= s.take(n));
    }
}

/// The number that digits write, where it does not go above `max`.
fn parse_digits(digits: &[char], max: u64) -> (n: Option<u64>)
    ensures
        match n {
            Some(v) => digits@.len() > 0 && all_digits(digits@) && decimal_value(digits@) == v && v
                <= max,
            None => digits@.len() == 0 || !all_digits(digits@) || decimal_value(digits@) > max,
        },
{
    if digits.len() == 0 {
        return None;
    }
    let mut value: u64 = 0;
    let mut i: usize = 0;
    proof {
        assert(digits@.take(0) =~= Seq::<char>::empty());
    }
    while i < digits.len()
        invariant
            i <= digits@.len(),
            forall|j: int| 0 <= j < i ==> is_digit(#[trigger] digits@[j]),
            value == decimal_value(digits@.take(i as int)),
            value <= max,
        decreases digits@.len() - i,
    {
        let c = digits[i];
        if c < '0' || c > '9' {
            assert(!is_digit(digits@[i as int]));
            return None;
        }
        proof {
            assert(digits@.take(i + 1).drop_last() =~= digits@.take(i as int));
            assert(digits@.take(i + 1).last() == c);
            if all_digits(digits@) {
                lemma_value_grows(digits@, i + 1);
            }
        }
        let digit: u64 = c as u64 - '0' as u64;
        if value > (u64::MAX - digit) / 10 {
            assert(value * 10 + digit > u64::MAX);
            return None;
        }
        value = value * 10 + digit;
        if value > max {
            return None;
        }
        i += 1;
    }
    assert(digits@.take(i as int) =~= digits@);
    Some(value)
}

/// Reads a number up to `max`.
pub fn parse_unsigned(s: &str, max: u64) -> (n: Option<u64>)
    ensures
        match n {
            Some(v) => read_unsigned(s@, max as nat) == Some(v as nat),
            None => read_unsigned(s@, max as nat) is None,
        },
{
    let mut chars = chars_of(s);
    if chars.len() > 1 && chars[0] == '+' {
        chars.remove(0);
        assert(chars@ =~= s@.drop_first());
    }
    parse_digits(chars.as_slice(), max)
}

/// Reads a number of 32 bits.
pub fn parse_u32(s: &str) -> (n: Option<u32>)
    ensures
        match n {
            Some(v) => read_unsigned(s@, u32::MAX as nat) == Some(v as nat),
            None => read_unsigned(s@, u32::MAX as nat) is None,
        },
{
    match parse_unsigned(s, 0xffff_ffff) {
        Some(v) => Some(v as u32),
        None => None,
    }
}

/// What is written of a number is read back as that number.
pub proof fn written_numbers_are_read_back(n: nat, max: nat)
    requires
        n <= max,
    ensures
        read_unsigned(decimal(n), max) == Some(n),
{
    decimal_reads_back(n);
    let d = decimal(n);
    assert(is_digit(d[0]));
}

/// A character in lower case, if it is an ASCII letter.
pub open spec fn lower_char(c: char) -> char {
    if 'A' <= c && c <= 'Z' {
        ((c as u32) + 32) as char
    } else {
        c
    }
}

/// A text with its ASCII letters in lower case.
pub open spec fn lowered(s: Seq<char>) -> Seq<char> {
    Seq::new(s.len(), |i: int| lower_char(s[i]))
}

fn to_lower_char(c: char) -> (low: char)
    ensures
        low == lower_char(c),
{
    if 'A' <= c && c <= 'Z' {
        (c as u8 + 32) as char
    } else {
        c
    }
}

/// A text with its ASCII letters in lower case.
pub fn to_lower(s: &str) -> (out: String)
    ensures
        out@ == lowered(s@),
{
    let chars = chars_of(s);
    let mut out = String::new();
    let mut i: usize = 0;
    while i < chars.len()
        invariant
            i <= chars@.len(),
            chars@ == s@,
            out@ == lowered(s@.take(i as int)),
        decreases chars@.len() - i,
    {
        out.push(to_lower_char(chars[i]));
        assert(lowered(s@.take(i + 1)) =~= lowered(s@.take(i as int)).push(
            lower_char(s@[i as int]),
        ));
        i += 1;
    }
    assert(s@.take(i as int) =~= s@);
    out
}

/// The number of 32 bits with a sign that a text writes.
pub open spec fn read_i32(s: Seq<char>) -> Option<int> {
    if s.len() > 1 && s[0] == '-' {
        let digits = s.drop_first();
        if all_digits(digits) && decimal_value(digits) <= 0x8000_0000 {
            Some(-(decimal_value(digits) as int))
        } else {
            None
        }
    } else {
        match read_unsigned(s, 0x7fff_ffff) {
            Some(n) => Some(n as int),
            None => None,
        }
    }
}

/// Reads a number of 32 bits with a sign.
pub fn parse_i32(s: &str) -> (n: Option<i32>)
    ensures
        match n {
            Some(v) => read_i32(s@) == Some(v as int),
            None => read_i32(s@) is None,
        },
{
    let mut chars = chars_of(s);
    if chars.len() > 1 && chars[0] == '-' {
        chars.remove(0);
        assert(chars@ =~= s@.drop_first());
        return match parse_digits(chars.as_slice(), 0x8000_0000) {
            Some(v) => if v == 0x8000_0000 {
                Some(i32::MIN)
            } else {
                Some(-(v as i32))
            },
            None => None,
        };
    }
    match parse_unsigned(s, 0x7fff_ffff) {
        Some(v) => Some(v as i32),
        None => None,
    }
}

/// The text up to the first separator.
pub open spec fn before_first(s: Seq<char>, separator: char) -> Seq<char>
    decreases s.len(),
{
    if s.len() == 0 || s[0] == separator {
        Seq::empty()
    } else {
        seq![s[0]] + before_first(s.drop_first(), separator)
    }
}

/// What follows the first separator, where there is one.
pub open spec fn after_first(s: Seq<char>, separator: char) -> Option<Seq<char>>
    decreases s.len(),
{
    if s.len() == 0 {
        None
    } else if s[0] == separator {
        Some(s.drop_first())
    } else {
        after_first(s.drop_first(), separator)
    }
}

/// Splits characters at the first separator.
pub fn split_first(chars: &[char], separator: char) -> (parts: (Vec<char>, Option<Vec<char>>))
    ensures
        parts.0@ == before_first(chars@, separator),
        match parts.1 {
            Some(rest) => after_first(chars@, separator) == Some(rest@),
            None => after_first(chars@, separator) is None,
        },
{
    let mut head: Vec<char> = Vec::new();
    let mut i: usize = 0;
    proof {
        assert(chars@.skip(0) =~= chars@);
        assert(head@ + before_first(chars@.skip(0), separator) =~= before_first(
            chars@,
            separator,
        ));
    }
    while i < chars.len()
        invariant
            i <= chars@.len(),
            before_first(chars@, separator) == head@ + before_first(
                chars@.skip(i as int),
                separator,
            ),
            after_first(chars@, separator) == after_first(chars@.skip(i as int), separator),
        decreases chars@.len() - i,
    {
        proof {
            assert(chars@.skip(i as int)[0] == chars@[i as int]);
            assert(chars@.skip(i as int).drop_first() =~= chars@.skip(i + 1));
        }
        if chars[i] == separator {
            let mut rest: Vec<char> = Vec::new();
            let mut j: usize = i + 1;
            while j < chars.len()
                invariant
                    i < j <= chars@.len(),
                    rest@ == chars@.subrange(i + 1, j as int),
                decreases chars@.len() - j,
            {
                rest.push(chars[j]);
                assert(chars@.subrange(i + 1, j + 1) =~= chars@.subrange(i + 1, j as int).push(
                    chars@[j as int],
                ));
                j += 1;
            }
            assert(rest@ =~= chars@.skip(i + 1));
            assert(head@ + Seq::<char>::empty() =~= head@);
            return (head, Some(rest));
        }
        proof {
            assert(head@ + (seq![chars@[i as int]] + before_first(chars@.skip(i + 1), separator))
                =~= head@.push(chars@[i as int]) + before_first(chars@.skip(i + 1), separator));
        }
        head.push(chars[i]);
        i += 1;
    }
    assert(head@ + Seq::<char>::empty() =~= head@);
    (head, None)
}

/// Whether a text starts with another.
pub open spec fn starts_with(s: Seq<char>, start: Seq<char>) -> bool {
    s.len() >= start.len() && s.take(start.len() as int) == start
}

/// Whether a text occurs in another.
pub open spec fn occurs_in(s: Seq<char>, part: Seq<char>) -> bool
    decreases s.len(),
{
    starts_with(s, part) || (s.len() > 0 && occurs_in(s.drop_first(), part))
}

/// The text with another one in the place of each occurrence of a part, from the
/// left, none overlapping another.
pub open spec fn replaced(s: Seq<char>, part: Seq<char>, with: Seq<char>) -> Seq<char>
    recommends
        part.len() > 0,
    decreases s.len(),
{
    if s.len() == 0 {
        Seq::empty()
    } else if part.len() > 0 && starts_with(s, part) {
        with + replaced(s.skip(part.len() as int), part, with)
    } else {
        seq![s[0]] + replaced(s.drop_first(), part, with)
    }
}

fn stands_at(s: &[char], at: usize, part: &[char]) -> (stands: bool)
    requires
        at <= s@.len(),
    ensures
        stands == starts_with(s@.skip(at as int), part@),
{
    let total: usize = s.len();
    if total - at < part.len() {
        return false;
    }
    let mut i: usize = 0;
    while i < part.len()
        invariant
            i <= part@.len(),
            total == s@.len(),
            at + part@.len() <= total,
            forall|j: int| 0 <= j < i ==> s@[at + j] == #[trigger] part@[j],
        decreases part@.len() - i,
    {
        if s[at + i] != part[i] {
            assert(s@.skip(at as int).take(part@.len() as int)[i as int] == s@[at + i]);
            return false;
        }
        i += 1;
    }
    assert(s@.skip(at as int).take(part@.len() as int) =~= part@);
    true
}

/// Whether a text occurs in another.
pub fn contains(s: &str, part: &str) -> (occurs: bool)
    ensures
        occurs == occurs_in(s@, part@),
{
    let chars = chars_of(s);
    let pattern = chars_of(part);
    let mut i: usize = 0;
    proof {
        assert(s@.skip(0) =~= s@);
    }
    loop
        invariant
            i <= chars@.len(),
            chars@ == s@,
            pattern@ == part@,
            occurs_in(s@, part@) == occurs_in(s@.skip(i as int), part@),
        decreases chars@.len() - i,
    {
        if stands_at(chars.as_slice(), i, pattern.as_slice()) {
            return true;
        }
        if i >= chars.len() {
            return false;
        }
        assert(s@.skip(i as int).drop_first() =~= s@.skip(i + 1));
        i += 1;
    }
}

/// Puts another text in the place of each occurrence of a part.
pub fn replace(s: &str, part: &str, with: &str) -> (out: String)
    requires
        part@.len() > 0,
    ensures
        out@ == replaced(s@, part@, with@),
{
    let chars = chars_of(s);
    let pattern = chars_of(part);
    let mut out = String::new();
    let mut i: usize = 0;
    proof {
        assert(s@.skip(0) =~= s@);
        assert(out@ + replaced(s@, part@, with@) =~= replaced(s@, part@, with@));
    }
    while i < chars.len()
        invariant
            i <= chars@.len(),
            chars@ == s@,
            pattern@ == part@,
            part@.len() > 0,
            replaced(s@, part@, with@) == out@ + replaced(s@.skip(i as int), part@, with@),
        decreases chars@.len() - i,
    {
        let ghost before = out@;
        let ghost rest = s@.skip(i as int);
        if stands_at(chars.as_slice(), i, pattern.as_slice()) {
            push_text(&mut out, with);
            proof {
                assert(rest.skip(part@.len() as int) =~= s@.skip(i + part@.len()));
                assert(before + (with@ + replaced(s@.skip(i + part@.len()), part@, with@)) =~= (
                before + with@) + replaced(s@.skip(i + part@.len()), part@, with@));
            }
            i += pattern.len();
        } else {
            out.push(chars[i]);
            proof {
                assert(rest.drop_first() =~= s@.skip(i + 1));
                assert(before + (seq![rest[0]] + replaced(s@.skip(i + 1), part@, with@)) =~= (
                before.push(rest[0])) + replaced(s@.skip(i + 1), part@, with@));
            }
            i += 1;
        }
    }
    assert(out@ + Seq::<char>::empty() =~= out@);
    out
}

/// Where the part does not occur, nothing is replaced.
pub proof fn nothing_to_replace(s: Seq<char>, part: Seq<char>, with: Seq<char>)
    requires
        part.len() > 0,
        !occurs_in(s, part),
    ensures
        replaced(s, part, with) == s,
    decreases s.len(),
{
    if s.len() > 0 {
        nothing_to_replace(s.drop_first(), part, with);
        assert(seq![s[0]] + s.drop_first() =~= s);
    } else {
        assert(replaced(s, part, with) =~= s);
    }
}

/// The digits of a text are read off from its characters one after the other: each of the
/// ten digits is kept, and every other character is dropped.
pub proof fn digits_are_kept_in_order(s: Seq<char>, more: Seq<char>, c: char)
    ensures
        digits_of(s + more) == digits_of(s) + digits_of(more),
        '0' <= c <= '9' ==> digits_of(seq![c]) == seq![c],
        c < '0' || c > '9' ==> digits_of(seq![c]).len() == 0,
        digits_of(Seq::<char>::empty()).len() == 0,
        digits_of(s).len() <= s.len(),
{
    let kept = |c: char| is_digit(c);
    Seq::filter_distributes_over_add(s, more, kept);
    s.lemma_filter_len(kept);
    reveal(Seq::filter);
    assert(seq![c].drop_last() =~= Seq::<char>::empty());
    assert(Seq::<char>::empty().filter(kept) =~= Seq::<char>::empty());
    assert(Seq::<char>::empty().push(c) =~= seq![c]);
}

/// A number is written digit by digit: behind what is written of a number stands one digit
/// of its tenfold and more. And it is read in the same way.
pub proof fn numbers_are_written_digit_by_digit(n: nat, d: nat, s: Seq<char>, c: char)
    requires
        d < 10,
    ensures
        decimal(d).len() == 1,
        decimal(d)[0] as int == '0' as int + d,
        n > 0 ==> decimal(10 * n + d) == decimal(n) + decimal(d),
        decimal_value(Seq::<char>::empty()) == 0,
        '0' <= c <= '9' ==> decimal_value(s.push(c)) == 10 * decimal_value(s) + (c as int
            - '0' as int),
{
    if n > 0 {
        assert((10 * n + d) / 10 == n);
        assert((10 * n + d) % 10 == d);
        assert(decimal(10 * n + d) =~= decimal(n) + decimal(d));
    }
    assert(s.push(c).drop_last() =~= s);
}

/// A negative number is written as a minus sign and the number without its sign.
pub proof fn signs_are_written_first(n: int)
    ensures
        n >= 0 ==> signed_decimal(n) == decimal(n as nat),
        n < 0 ==> signed_decimal(n).len() > 1 && signed_decimal(n)[0] == '-'
            && signed_decimal(n).drop_first() == decimal((-n) as nat),
{
    if n < 0 {
        decimal_reads_back((-n) as nat);
        assert(signed_decimal(n).drop_first() =~= decimal((-n) as nat));
    }
}

proof fn lemma_space_behind(s: Seq<char>, c: char)
    requires
        is_space(c),
    ensures
        trimmed(s.push(c)) == trimmed(s),
    decreases s.len(),
{
    let longer = s.push(c);
    if s.len() == 0 {
        assert(longer.drop_first() =~= s);
        assert(trimmed_start(longer) == trimmed_start(s));
    } else if is_space(s[0]) {
        lemma_space_behind(s.drop_first(), c);
        assert(longer.drop_first() =~= s.drop_first().push(c));
    } else {
        assert(longer.drop_last() =~= s);
    }
}

/// White space before and behind a text is dropped, and nothing else: a text that neither
/// starts nor ends with white space stays as it is. Spaces, tabs and line ends are white
/// space; digits, letters and the other visible characters of ASCII are not.
pub proof fn space_around_is_dropped(s: Seq<char>, c: char)
    ensures
        c == ' ' || c == '\t' || c == '\n' || c == '\r' ==> trimmed(seq![c] + s) == trimmed(s)
            && trimmed(s.push(c)) == trimmed(s),
        '!' <= c <= '~' ==> trimmed(seq![c]) == seq![c],
        s.len() == 0 || (!is_space(s[0]) && !is_space(s.last())) ==> trimmed(s) == s,
{
    let longer = seq![c] + s;
    assert(longer.drop_first() =~= s);
    assert(longer[0] == c);
    if is_space(c) {
        lemma_space_behind(s, c);
    }
    assert(seq![c][0] == c);
    assert(seq![c].last() == c);
}

/// A number is read from digits, with a plus sign before them or without, and from nothing
/// else; one above the largest that can be held is not read.
pub proof fn only_digits_are_read(s: Seq<char>, n: nat, max: nat)
    ensures
        read_unsigned(decimal(n), max) == (if n <= max {
            Some(n)
        } else {
            None
        }),
        read_unsigned(seq!['+'] + decimal(n), max) == read_unsigned(decimal(n), max),
        read_unsigned(s, max) is Some ==> s.len() > 0 && forall|i: int|
            0 <= i < s.len() ==> '0' <= #[trigger] s[i] <= '9' || (i == 0 && s[i] == '+' && s.len()
                > 1),
        read_unsigned(s, max) matches Some(v) ==> v <= max,
{
    decimal_reads_back(n);
    assert(is_digit(decimal(n)[0]));
    let signed = seq!['+'] + decimal(n);
    assert(signed.drop_first() =~= decimal(n));
    if read_unsigned(s, max) is Some {
        let digits = unsigned_digits(s);
        assert forall|i: int| 0 <= i < s.len() implies '0' <= #[trigger] s[i] <= '9' || (i == 0
            && s[i] == '+' && s.len() > 1) by {
            if digits.len() < s.len() {
                if i > 0 {
                    assert(is_digit(digits[i - 1]));
                }
            } else {
                assert(is_digit(digits[i]));
            }
        }
    }
}

/// What is written of a number with a sign is read back as that number if it has 32 bits,
/// and not at all if it has more.
pub proof fn signed_numbers_are_read_back(n: int)
    ensures
        -0x8000_0000 <= n <= 0x7fff_ffff ==> read_i32(signed_decimal(n)) == Some(n),
        n < -0x8000_0000 || n > 0x7fff_ffff ==> read_i32(signed_decimal(n)) is None,
{
    if n < 0 {
        let m = (-n) as nat;
        decimal_reads_back(m);
        assert(signed_decimal(n).drop_first() =~= decimal(m));
        assert(signed_decimal(n)[0] == '-');
    } else {
        decimal_reads_back(n as nat);
        assert(is_digit(decimal(n as nat)[0]));
        only_digits_are_read(Seq::empty(), n as nat, 0x7fff_ffff);
    }
}

/// Only the capital letters of ASCII change, each to the small letter 32 places on.
pub proof fn capitals_are_lowered(s: Seq<char>, i: int)
    requires
        0 <= i < s.len(),
    ensures
        lowered(s).len() == s.len(),
        'A' <= s[i] <= 'Z' ==> lowered(s)[i] as int == s[i] as int + 32,
        s[i] < 'A' || s[i] > 'Z' ==> lowered(s)[i] == s[i],
        lowered(lowered(s)) == lowered(s),
{
    assert forall|k: int| 0 <= k < s.len() implies lower_char(#[trigger] lowered(s)[k]) == lowered(
        s,
    )[k] by {
        if 'A' <= s[k] && s[k] <= 'Z' {
            assert(lowered(s)[k] as int == s[k] as int + 32);
        }
    }
    assert(lowered(lowered(s)) =~= lowered(s));
}

/// Texts are put one after the other with a separator between any two of them, and none
/// before the first or behind the last.
pub proof fn separators_stand_between(a: Seq<Seq<char>>, b: Seq<Seq<char>>, separator: Seq<char>)
    ensures
        a.len() > 0 && b.len() > 0 ==> joined(a + b, separator) == joined(a, separator) + separator
            + joined(b, separator),
        a.len() == 1 ==> joined(a, separator) == a[0],
        a.len() == 0 ==> joined(a, separator).len() == 0,
    decreases b.len(),
{
    if a.len() > 0 && b.len() > 0 {
        let all = a + b;
        assert(all.last() == b.last());
        assert(all.drop_last() =~= a + b.drop_last());
        if b.len() == 1 {
            assert(a + b.drop_last() =~= a);
        } else {
            separators_stand_between(a, b.drop_last(), separator);
            assert(joined(all, separator) =~= joined(a, separator) + separator + joined(
                b,
                separator,
            ));
        }
    }
}

/// A text that is split at its first separator is what stands before it, the separator, and
/// what follows. Where there is no separator, all of it stands before, and nothing follows.
pub proof fn texts_split_at_the_first_separator(s: Seq<char>, separator: char)
    ensures
        !before_first(s, separator).contains(separator),
        after_first(s, separator) is None <==> !s.contains(separator),
        match after_first(s, separator) {
            Some(rest) => s == before_first(s, separator).push(separator) + rest,
            None => s == before_first(s, separator),
        },
    decreases s.len(),
{
    let before = before_first(s, separator);
    if s.len() == 0 {
        assert(s =~= before);
    } else if s[0] == separator {
        assert(s =~= before.push(separator) + s.drop_first());
        assert(s.contains(separator));
    } else {
        let rest = s.drop_first();
        texts_split_at_the_first_separator(rest, separator);
        assert(before =~= seq![s[0]] + before_first(rest, separator));
        if before.contains(separator) {
            let k = choose|k: int| 0 <= k < before.len() && before[k] == separator;
            assert(before_first(rest, separator)[k - 1] == separator);
            assert(before_first(rest, separator).contains(separator));
        }
        if s.contains(separator) {
            let k = choose|k: int| 0 <= k < s.len() && s[k] == separator;
            assert(rest[k - 1] == separator);
            assert(rest.contains(separator));
        }
        if rest.contains(separator) {
            let k = choose|k: int| 0 <= k < rest.len() && rest[k] == separator;
            assert(s[k + 1] == separator);
        }
        match after_first(s, separator) {
            Some(tail) => {
                assert(s =~= seq![s[0]] + rest);
                assert(s =~= before.push(separator) + tail);
            },
            None => {
                assert(s =~= before);
            },
        }
    }
}

/// A text occurs in another one just where the other one has it between two pieces, either
/// of which may be empty.
pub proof fn parts_occur_in_wholes(a: Seq<char>, part: Seq<char>, b: Seq<char>, s: Seq<char>)
    ensures
        occurs_in(a + part + b, part),
        occurs_in(s, part) <==> exists|i: int|
            0 <= i <= s.len() - part.len() && #[trigger] s.subrange(i, i + part.len()) == part,
    decreases a.len(), s.len(),
{
    let whole = a + part + b;
    if a.len() == 0 {
        assert(whole.take(part.len() as int) =~= part);
    } else {
        parts_occur_in_wholes(a.drop_first(), part, b, s);
        assert(whole.drop_first() =~= a.drop_first() + part + b);
    }
    lemma_occurs_somewhere(s, part);
}

proof fn lemma_occurs_somewhere(s: Seq<char>, part: Seq<char>)
    ensures
        occurs_in(s, part) <==> exists|i: int|
            0 <= i <= s.len() - part.len() && #[trigger] s.subrange(i, i + part.len()) == part,
    decreases s.len(),
{
    if starts_with(s, part) {
        assert(s.subrange(0, 0int + part.len()) =~= s.take(part.len() as int));
    } else if s.len() > 0 {
        let rest = s.drop_first();
        lemma_occurs_somewhere(rest, part);
        if occurs_in(rest, part) {
            let i = choose|i: int|
                0 <= i <= rest.len() - part.len() && #[trigger] rest.subrange(i, i + part.len())
                    == part;
            assert(s.subrange(i + 1, i + 1 + part.len()) =~= rest.subrange(i, i + part.len()));
        }
        if exists|i: int|
            0 <= i <= s.len() - part.len() && #[trigger] s.subrange(i, i + part.len()) == part {
            let i = choose|i: int|
                0 <= i <= s.len() - part.len() && #[trigger] s.subrange(i, i + part.len()) == part;
            if i == 0 {
                assert(s.subrange(0, 0int + part.len()) =~= s.take(part.len() as int));
            }
            assert(rest.subrange(i - 1, i - 1 + part.len()) =~= s.subrange(i, i + part.len()));
        }
    } else if exists|i: int|
        0 <= i <= s.len() - part.len() && #[trigger] s.subrange(i, i + part.len()) == part {
        assert(s.take(part.len() as int) =~= s.subrange(0, 0int + part.len()));
    }
}

/// Where a part first occurs, the other text stands in its place, with what came before it
/// unchanged; and what comes behind it is gone through in the same way.
pub proof fn each_occurrence_is_replaced(
    a: Seq<char>,
    part: Seq<char>,
    b: Seq<char>,
    with: Seq<char>,
)
    requires
        part.len() > 0,
        forall|i: int|
            0 <= i < a.len() ==> !starts_with(#[trigger] (a + part + b).skip(i), part),
    ensures
        replaced(a + part + b, part, with) == a + with + replaced(b, part, with),
    decreases a.len(),
{
    let whole = a + part + b;
    if a.len() == 0 {
        assert(whole.take(part.len() as int) =~= part);
        assert(whole.skip(part.len() as int) =~= b);
        assert(a + with + replaced(b, part, with) =~= with + replaced(b, part, with));
    } else {
        assert(whole.skip(0) =~= whole);
        assert(!starts_with(whole.skip(0), part));
        let rest = a.drop_first();
        assert(whole.drop_first() =~= rest + part + b);
        assert forall|i: int| 0 <= i < rest.len() implies !starts_with(
            #[trigger] (rest + part + b).skip(i),
            part,
        ) by {
            assert((rest + part + b).skip(i) =~= whole.skip(i + 1));
        }
        each_occurrence_is_replaced(rest, part, b, with);
        assert(seq![a[0]] + (rest + with + replaced(b, part, with)) =~= a + with + replaced(
            b,
            part,
            with,
        ));
    }
}

/// White space are the five characters from the tab to the carriage return, the space, the next
/// line, the space that does not break, and the spaces and separators of other scripts; and no
/// other character.
pub proof fn white_space_is_told_by_its_code(c: char)
    ensures
        ({
            let code = c as u32;
            is_space(c) <==> 9 <= code <= 13 || code == 32 || code == 133 || code == 160 || code
                == 5760 || 8192 <= code <= 8202 || code == 8232 || code == 8233 || code == 8239
                || code == 8287 || code == 12288
        }),
{
}

}
