//! Building and cutting text.
//!
//! Every text is modelled by its characters, a `Seq<char>`; where a rule counts bytes it
//! counts those of the UTF-8 encoding, `encode_utf8`.
use vstd::prelude::*;
use vstd::string::*;
use vstd::utf8::*;

verus! {

/// `String::push` adds one character at the end.
pub assume_specification[ String::push ](s: &mut String, c: char)
    ensures
        final(s)@ == old(s)@.push(c),
;

/// `char::is_whitespace` tells whether a character has Unicode's `White_Space` property,
/// whose members `is_white_space` lists.
pub assume_specification[ char::is_whitespace ](c: char) -> (b: bool)
    ensures
        b == is_white_space(c),
;

/// The characters with Unicode's `White_Space` property.
pub open spec fn is_white_space(c: char) -> bool {
    let n = c as u32;
    ||| 0x09 <= n <= 0x0d
    ||| n == 0x20
    ||| n == 0x85
    ||| n == 0xa0
    ||| n == 0x1680
    ||| 0x2000 <= n <= 0x200a
    ||| n == 0x2028
    ||| n == 0x2029
    ||| n == 0x202f
    ||| n == 0x205f
    ||| n == 0x3000
}

/// The text of a natural number in base ten, without leading zeros.
pub open spec fn decimal(n: nat) -> Seq<char>
    decreases n,
{
    if n < 10 {
        seq![digit(n)]
    } else {
        decimal(n / 10).push(digit(n % 10))
    }
}

/// The character of one decimal digit.
pub open spec fn digit(n: nat) -> char {
    (('0' as u32) + n) as char
}

/// The text of an integer in base ten: a minus sign in front of a negative one.
pub open spec fn signed_decimal(n: int) -> Seq<char> {
    if n < 0 {
        seq!['-'] + decimal((-n) as nat)
    } else {
        decimal(n as nat)
    }
}

fn digit_char(n: u64) -> (c: char)
    requires
        n < 10,
    ensures
        c == digit(n as nat),
{
    (0x30u8 + n as u8) as char
}

/// Writes a number in base ten.
pub fn decimal_u64(n: u64) -> (s: String)
    ensures
        s@ == decimal(n as nat),
    decreases n,
{
    if n < 10 {
        let mut s = String::new();
        s.push(digit_char(n));
        assert(s@ =~= seq![digit(n as nat)]);
        s
    } else {
        let mut s = decimal_u64(n / 10);
        s.push(digit_char(n % 10));
        s
    }
}

/// Writes an integer in base ten.
pub fn decimal_i64(n: i64) -> (s: String)
    ensures
        s@ == signed_decimal(n as int),
{
    if n < 0 {
        let magnitude: u64 = if n == i64::MIN { 0x8000_0000_0000_0000u64 } else { (-n) as u64 };
        let digits = decimal_u64(magnitude);
        let mut s = String::new();
        s.push('-');
        s.append(digits.as_str());
        assert(s@ =~= seq!['-'] + decimal(magnitude as nat));
        s
    } else {
        decimal_u64(n as u64)
    }
}

/// The texts that a list of strings holds.
pub open spec fn texts(strings: Seq<String>) -> Seq<Seq<char>> {
    strings.map_values(|s: String| s@)
}

/// Parts put one after another with a separator between each two.
pub open spec fn joined(parts: Seq<Seq<char>>, separator: Seq<char>) -> Seq<char>
    decreases parts.len(),
{
    if parts.len() == 0 {
        Seq::empty()
    } else if parts.len() == 1 {
        parts[0]
    } else {
        joined(parts.drop_last(), separator) + separator + parts.last()
    }
}

/// Puts strings one after another with a separator between each two.
pub fn join(parts: &Vec<String>, separator: &str) -> (s: String)
    ensures
        s@ == joined(texts(parts@), separator@),
{
    let mut s = String::new();
    let mut i: usize = 0;
    while i < parts.len()
        invariant
            i <= parts.len(),
            s@ == joined(texts(parts@).take(i as int), separator@),
        decreases parts.len() - i,
    {
        if i > 0 {
            s.append(separator);
        }
        s.append(parts[i].as_str());
        i = i + 1;
        proof {
            let now = texts(parts@).take(i as int);
            assert(now.drop_last() =~= texts(parts@).take(i - 1));
            assert(now.last() == parts@[i - 1]@);
            if i == 1 {
                assert(s@ =~= now[0]);
            }
        }
    }
    assert(texts(parts@).take(i as int) =~= texts(parts@));
    s
}

/// Parts put one after another.
pub open spec fn all_together<T>(parts: Seq<Seq<T>>) -> Seq<T>
    decreases parts.len(),
{
    if parts.len() == 0 {
        Seq::empty()
    } else {
        all_together(parts.drop_last()) + parts.last()
    }
}

/// `n` copies of one character.
pub open spec fn repeated(c: char, n: nat) -> Seq<char> {
    Seq::new(n, |i: int| c)
}

/// A text followed by as many spaces as make it `width` characters wide; one already that
/// wide is left alone.
pub open spec fn padded(text: Seq<char>, width: nat) -> Seq<char> {
    text + repeated(' ', if text.len() < width { (width - text.len()) as nat } else { 0 })
}

/// Pads a text with spaces on the right to a column width.
pub fn pad_right(text: &str, width: usize) -> (s: String)
    ensures
        s@ == padded(text@, width as nat),
{
    let mut s = text.to_owned();
    let mut n: usize = text.unicode_len();
    let ghost start: int = n as int;
    while n < width
        invariant
            start == text@.len(),
            start <= n,
            n <= width || n == start,
            s@ == text@ + repeated(' ', (n - start) as nat),
        decreases width - n,
    {
        s.push(' ');
        n = n + 1;
        assert(s@ =~= text@ + repeated(' ', (n - start) as nat));
    }
    s
}

/// The characters of a text, in a vector.
pub fn to_chars(text: &str) -> (chars: Vec<char>)
    ensures
        chars@ == text@,
{
    let mut chars: Vec<char> = Vec::new();
    for c in iter: text.chars()
        invariant
            chars@ == text@.take(iter.index()),
            iter.seq() == text@,
    {
        chars.push(c);
        assert(chars@ =~= text@.take(iter.index() + 1));
    }
    assert(text@.take(text@.len() as int) =~= text@);
    chars
}

/// The text that a range of characters spells.
pub fn from_chars(chars: &Vec<char>, from: usize, to: usize) -> (s: String)
    requires
        from <= to <= chars@.len(),
    ensures
        s@ == chars@.subrange(from as int, to as int),
{
    let mut s = String::new();
    let mut i: usize = from;
    while i < to
        invariant
            from <= i <= to <= chars@.len(),
            s@ == chars@.subrange(from as int, i as int),
        decreases to - i,
    {
        s.push(chars[i]);
        i = i + 1;
        assert(s@ =~= chars@.subrange(from as int, i as int));
    }
    s
}

/// A text without the white space at its end.
pub open spec fn trimmed_end(text: Seq<char>) -> Seq<char>
    decreases text.len(),
{
    if text.len() > 0 && is_white_space(text.last()) {
        trimmed_end(text.drop_last())
    } else {
        text
    }
}

/// A text without the white space at its start.
pub open spec fn trimmed_start(text: Seq<char>) -> Seq<char>
    decreases text.len(),
{
    if text.len() > 0 && is_white_space(text[0]) {
        trimmed_start(text.drop_first())
    } else {
        text
    }
}

/// A text without the white space at either end.
pub open spec fn trimmed(text: Seq<char>) -> Seq<char> {
    trimmed_end(trimmed_start(text))
}

fn trim_end_chars(chars: &Vec<char>, from: usize) -> (to: usize)
    requires
        from <= chars@.len(),
    ensures
        from <= to <= chars@.len(),
        chars@.subrange(from as int, to as int) == trimmed_end(chars@.skip(from as int)),
{
    let mut to: usize = chars.len();
    assert(chars@.subrange(from as int, to as int) =~= chars@.skip(from as int));
    while to > from && chars[to - 1].is_whitespace()
        invariant
            from <= to <= chars@.len(),
            trimmed_end(chars@.subrange(from as int, to as int)) == trimmed_end(
                chars@.skip(from as int),
            ),
        ensures
            to == from || !is_white_space(chars@[to - 1]),
        decreases to,
    {
        assert(chars@.subrange(from as int, to as int).drop_last() =~= chars@.subrange(
            from as int,
            to - 1,
        ));
        to = to - 1;
    }
    to
}

/// Takes the white space off the end of a text.
pub fn trim_end(text: &str) -> (s: String)
    ensures
        s@ == trimmed_end(text@),
{
    let chars = to_chars(text);
    let to: usize = trim_end_chars(&chars, 0);
    assert(chars@.skip(0) =~= text@);
    from_chars(&chars, 0, to)
}

/// Takes the white space off both ends of a text.
pub fn trim(text: &str) -> (s: String)
    ensures
        s@ == trimmed(text@),
{
    let from_start = trim_start(text);
    trim_end(from_start.as_str())
}

/// Takes the white space off the start of a text.
pub fn trim_start(text: &str) -> (s: String)
    ensures
        s@ == trimmed_start(text@),
{
    let chars = to_chars(text);
    let mut from: usize = 0;
    assert(chars@.skip(0) =~= text@);
    while from < chars.len() && chars[from].is_whitespace()
        invariant
            from <= chars@.len(),
            trimmed_start(chars@.skip(from as int)) == trimmed_start(text@),
        ensures
            from == chars@.len() || !is_white_space(chars@[from as int]),
        decreases chars.len() - from,
    {
        assert(chars@.skip(from as int).drop_first() =~= chars@.skip(from + 1));
        from = from + 1;
    }
    assert(chars@.subrange(from as int, chars@.len() as int) =~= chars@.skip(from as int));
    from_chars(&chars, from, chars.len())
}

/// A text of at most `max` characters as it is; a longer one cut short, with an ellipsis as
/// the last of its `max` characters.
pub open spec fn shortened(text: Seq<char>, max: nat) -> Seq<char> {
    if text.len() <= max {
        text
    } else {
        text.take(max - 1).push('\u{2026}')
    }
}

/// Cuts a text to at most `max` characters, saying so with an ellipsis.
pub fn shorten(text: &str, max: usize) -> (s: String)
    requires
        max > 0,
    ensures
        s@ == shortened(text@, max as nat),
        s@.len() <= max,
{
    if text.unicode_len() <= max {
        text.to_owned()
    } else {
        let mut s = text.substring_char(0, max - 1).to_owned();
        s.push('\u{2026}');
        assert(text@.subrange(0, max - 1) =~= text@.take(max - 1));
        s
    }
}

/// Tells whether two texts are the same.
pub fn same(a: &str, b: &str) -> (r: bool)
    ensures
        r == (a@ == b@),
{
    let x = a.as_bytes();
    let y = b.as_bytes();
    proof {
        encode_utf8_decode_utf8(a@);
        encode_utf8_decode_utf8(b@);
    }
    if x.len() != y.len() {
        return false;
    }
    let mut i: usize = 0;
    while i < x.len()
        invariant
            i <= x@.len(),
            x@.len() == y@.len(),
            x@ == encode_utf8(a@),
            y@ == encode_utf8(b@),
            x@.take(i as int) == y@.take(i as int),
        decreases x.len() - i,
    {
        if x[i] != y[i] {
            assert(a@ != b@);
            return false;
        }
        assert(x@.take(i + 1) =~= x@.take(i as int).push(x@[i as int]));
        assert(y@.take(i + 1) =~= y@.take(i as int).push(y@[i as int]));
        i = i + 1;
    }
    assert(x@.take(i as int) =~= x@);
    assert(y@.take(i as int) =~= y@);
    true
}

/// The first place at or after `at` where a character of the encoded text starts, or its end.
pub open spec fn boundary_from(bytes: Seq<u8>, at: int) -> int
    decreases bytes.len() - at,
{
    if at >= bytes.len() {
        bytes.len() as int
    } else if is_char_boundary(bytes, at) {
        at
    } else {
        boundary_from(bytes, at + 1)
    }
}

/// The last place at or before `at` where a character of the encoded text starts.
pub open spec fn boundary_until(bytes: Seq<u8>, at: int) -> int
    decreases at,
{
    if at <= 0 {
        0
    } else if is_char_boundary(bytes, at) {
        at
    } else {
        boundary_until(bytes, at - 1)
    }
}

/// What a text holds from a byte of its encoding on.
pub open spec fn from_byte(text: Seq<char>, at: int) -> Seq<char> {
    decode_utf8(encode_utf8(text).skip(at))
}

/// What a text holds before a byte of its encoding.
pub open spec fn up_to_byte(text: Seq<char>, at: int) -> Seq<char> {
    decode_utf8(encode_utf8(text).take(at))
}

proof fn lemma_four_bytes_hold_a_start(bytes: Seq<u8>, at: int)
    requires
        valid_utf8(bytes),
        0 <= at,
        at + 3 < bytes.len(),
    ensures
        !is_continuation_byte(bytes[at]) || !is_continuation_byte(bytes[at + 1])
            || !is_continuation_byte(bytes[at + 2]) || !is_continuation_byte(bytes[at + 3]),
    decreases bytes.len(),
{
    reveal_with_fuel(valid_utf8, 2);
    let width = length_of_first_scalar(bytes);
    let rest = pop_first_scalar(bytes);
    if at >= width {
        lemma_four_bytes_hold_a_start(rest, at - width);
    } else if at > 0 {
        assert(rest[0] == bytes[width]);
    }
}

/// A cut moved on to the next character boundary moves by at most three bytes, and lands on
/// a boundary.
pub proof fn boundary_from_is_near(bytes: Seq<u8>, at: int)
    requires
        valid_utf8(bytes),
        0 <= at <= bytes.len(),
    ensures
        at <= boundary_from(bytes, at) <= bytes.len(),
        boundary_from(bytes, at) <= at + 3,
        is_char_boundary(bytes, boundary_from(bytes, at)),
{
    reveal_with_fuel(boundary_from, 5);
    is_char_boundary_start_end_of_seq(bytes);
    if at + 3 < bytes.len() {
        lemma_four_bytes_hold_a_start(bytes, at);
        is_char_boundary_iff_not_is_continuation_byte(bytes, at);
        is_char_boundary_iff_not_is_continuation_byte(bytes, at + 1);
        is_char_boundary_iff_not_is_continuation_byte(bytes, at + 2);
        is_char_boundary_iff_not_is_continuation_byte(bytes, at + 3);
    }
}

/// A cut moved back to the previous character boundary moves by at most three bytes, and
/// lands on a boundary.
pub proof fn boundary_until_is_near(bytes: Seq<u8>, at: int)
    requires
        valid_utf8(bytes),
        0 <= at <= bytes.len(),
    ensures
        0 <= boundary_until(bytes, at) <= at,
        at - 3 <= boundary_until(bytes, at),
        is_char_boundary(bytes, boundary_until(bytes, at)),
{
    reveal_with_fuel(boundary_until, 5);
    is_char_boundary_start_end_of_seq(bytes);
    if 3 <= at < bytes.len() {
        lemma_four_bytes_hold_a_start(bytes, at - 3);
        is_char_boundary_iff_not_is_continuation_byte(bytes, at);
        is_char_boundary_iff_not_is_continuation_byte(bytes, at - 1);
        is_char_boundary_iff_not_is_continuation_byte(bytes, at - 2);
        is_char_boundary_iff_not_is_continuation_byte(bytes, at - 3);
    }
}

/// Cutting a text at a character boundary loses nothing: the two sides spell the text, and
/// their encodings are the two sides of its encoding.
pub proof fn cut_at_boundary(text: Seq<char>, at: int)
    requires
        0 <= at <= encode_utf8(text).len(),
        is_char_boundary(encode_utf8(text), at),
    ensures
        text == up_to_byte(text, at) + from_byte(text, at),
        encode_utf8(up_to_byte(text, at)) == encode_utf8(text).take(at),
        encode_utf8(from_byte(text, at)) == encode_utf8(text).skip(at),
{
    let bytes = encode_utf8(text);
    encode_utf8_valid_utf8(text);
    encode_utf8_decode_utf8(text);
    valid_utf8_split(bytes, at);
    decode_utf8_split(bytes, at);
    assert(bytes.take(at) =~= bytes.subrange(0, at));
    assert(bytes.skip(at) =~= bytes.subrange(at, bytes.len() as int));
    decode_utf8_encode_utf8(bytes.take(at));
    decode_utf8_encode_utf8(bytes.skip(at));
}

/// Finds the first character boundary at or after a byte.
pub fn next_boundary(text: &str, at: usize) -> (cut: usize)
    requires
        at <= text.spec_bytes().len(),
    ensures
        cut == boundary_from(text.spec_bytes(), at as int),
        at <= cut <= text.spec_bytes().len(),
        is_char_boundary(text.spec_bytes(), cut as int),
{
    let length: usize = text.as_bytes().len();
    let ghost bytes = text.spec_bytes();
    proof {
        encode_utf8_valid_utf8(text@);
        is_char_boundary_start_end_of_seq(bytes);
    }
    let mut cut: usize = at;
    while cut < length && !text.is_char_boundary(cut)
        invariant
            bytes == text.spec_bytes(),
            at <= cut <= length,
            length == bytes.len(),
            boundary_from(bytes, at as int) == boundary_from(bytes, cut as int),
        ensures
            cut == length || is_char_boundary(bytes, cut as int),
        decreases length - cut,
    {
        cut = cut + 1;
    }
    cut
}

/// Finds the last character boundary at or before a byte.
pub fn previous_boundary(text: &str, at: usize) -> (cut: usize)
    requires
        at <= text.spec_bytes().len(),
    ensures
        cut == boundary_until(text.spec_bytes(), at as int),
        cut <= at,
        is_char_boundary(text.spec_bytes(), cut as int),
{
    let ghost bytes = text.spec_bytes();
    proof {
        encode_utf8_valid_utf8(text@);
        is_char_boundary_start_end_of_seq(bytes);
    }
    let mut cut: usize = at;
    while cut > 0 && !text.is_char_boundary(cut)
        invariant
            bytes == text.spec_bytes(),
            cut <= at <= bytes.len(),
            boundary_until(bytes, at as int) == boundary_until(bytes, cut as int),
        ensures
            cut == 0 || is_char_boundary(bytes, cut as int),
        decreases cut,
    {
        cut = cut - 1;
    }
    cut
}

/// Splits a text at a character boundary.
pub fn split_at_byte(text: &str, at: usize) -> (sides: (&str, &str))
    requires
        at <= text.spec_bytes().len(),
        is_char_boundary(text.spec_bytes(), at as int),
    ensures
        sides.0@ == up_to_byte(text@, at as int),
        sides.1@ == from_byte(text@, at as int),
{
    let sides = text.split_at(at);
    proof {
        let bytes = text.spec_bytes();
        assert(sides.0.spec_bytes() =~= bytes.take(at as int));
        assert(sides.1.spec_bytes() =~= bytes.skip(at as int));
        encode_utf8_decode_utf8(sides.0@);
        encode_utf8_decode_utf8(sides.1@);
    }
    sides
}

/// The number of bytes in the encoding of a text.
pub fn byte_len(text: &str) -> (n: usize)
    ensures
        n == encode_utf8(text@).len(),
{
    text.as_bytes().len()
}

/// A character with an ASCII letter made a capital.
pub open spec fn ascii_upper(c: char) -> char {
    if 'a' <= c <= 'z' {
        ((c as u32) - 32) as char
    } else {
        c
    }
}

/// A text with its ASCII letters made capitals.
pub open spec fn upper(text: Seq<char>) -> Seq<char> {
    text.map_values(|c: char| ascii_upper(c))
}

/// Makes the ASCII letters of a text capitals.
pub fn to_upper(text: &str) -> (s: String)
    ensures
        s@ == upper(text@),
{
    let chars = to_chars(text);
    let mut s = String::new();
    let mut i: usize = 0;
    assert(upper(text@.take(0)) =~= Seq::<char>::empty());
    while i < chars.len()
        invariant
            chars@ == text@,
            i <= chars@.len(),
            s@ == upper(text@.take(i as int)),
        decreases chars.len() - i,
    {
        let c = chars[i];
        if 'a' <= c && c <= 'z' {
            s.push(((c as u8) - 32) as char);
        } else {
            s.push(c);
        }
        i = i + 1;
        assert(s@ =~= upper(text@.take(i as int)));
    }
    assert(text@.take(i as int) =~= text@);
    s
}

/// Whether a character is a decimal digit.
pub open spec fn is_digit(c: char) -> bool {
    '0' <= c <= '9'
}

/// Whether a text is decimal digits only, and at least one.
pub open spec fn is_digits(text: Seq<char>) -> bool {
    text.len() > 0 && forall|i: int| 0 <= i < text.len() ==> is_digit(#[trigger] text[i])
}

/// The number that decimal digits write.
pub open spec fn number(digits: Seq<char>) -> nat
    decreases digits.len(),
{
    if digits.len() == 0 {
        0
    } else {
        number(digits.drop_last()) * 10 + ((digits.last() as u32 - '0' as u32) as nat)
    }
}

/// The integer that a text writes in base ten, a sign in front allowed, if it writes one that
/// fits into 64 bits.
pub open spec fn parsed_i64(text: Seq<char>) -> Option<int> {
    let signed = text.len() > 0 && (text[0] == '-' || text[0] == '+');
    let digits = if signed { text.drop_first() } else { text };
    let n = if text.len() > 0 && text[0] == '-' { -(number(digits) as int) } else {
        number(digits) as int
    };
    if is_digits(digits) && i64::MIN <= n <= i64::MAX {
        Some(n)
    } else {
        None
    }
}

proof fn lemma_number_grows(digits: Seq<char>, i: int)
    requires
        0 <= i <= digits.len(),
    ensures
        number(digits.take(i)) <= number(digits),
    decreases digits.len(),
{
    if i == digits.len() {
        assert(digits.take(i) =~= digits);
    } else {
        lemma_number_grows(digits.drop_last(), i);
        assert(digits.drop_last().take(i) =~= digits.take(i));
    }
}

/// Reads an integer in base ten.
pub fn parse_i64(text: &str) -> (r: Option<i64>)
    ensures
        r is Some <==> parsed_i64(text@) is Some,
        r matches Some(n) ==> parsed_i64(text@) == Some(n as int),
{
    let chars = to_chars(text);
    let negative = chars.len() > 0 && chars[0] == '-';
    let signed = chars.len() > 0 && (chars[0] == '-' || chars[0] == '+');
    let start: usize = if signed { 1 } else { 0 };
    let ghost digits = if signed { text@.drop_first() } else { text@ };
    assert(digits =~= chars@.skip(start as int));
    if start == chars.len() {
        return None;
    }
    let limit: i128 = 9_223_372_036_854_775_808;
    let mut n: i128 = 0;
    let mut i: usize = start;
    assert(digits.take(0) =~= Seq::empty());
    while i < chars.len()
        invariant
            start <= i <= chars@.len(),
            digits == chars@.skip(start as int),
            limit == 9_223_372_036_854_775_808,
            0 <= n <= limit,
            n == number(digits.take(i - start)),
            forall|j: int| 0 <= j < i - start ==> is_digit(#[trigger] digits[j]),
            negative == (text@.len() > 0 && text@[0] == '-'),
            digits == (if text@.len() > 0 && (text@[0] == '-' || text@[0] == '+') {
                text@.drop_first()
            } else {
                text@
            }),
        decreases chars.len() - i,
    {
        let c = chars[i];
        if c < '0' || c > '9' {
            assert(!is_digit(digits[i - start]));
            return None;
        }
        n = n * 10 + (c as u32 - '0' as u32) as i128;
        proof {
            let now = digits.take(i + 1 - start);
            assert(now.drop_last() =~= digits.take(i - start));
            assert(now.last() == c);
            assert(is_digit(digits[i - start]));
        }
        i = i + 1;
        if n > limit {
            proof {
                lemma_number_grows(digits, i - start);
            }
            return None;
        }
    }
    assert(digits.take(i - start) =~= digits);
    if negative {
        Some((-n) as i64)
    } else if n < limit {
        Some(n as i64)
    } else {
        None
    }
}

/// Where the line that a place in a text lies on ends: at the next line break, or the end.
pub open spec fn line_end(text: Seq<char>, at: int) -> int
    decreases text.len() - at,
{
    if at >= text.len() {
        text.len() as int
    } else if text[at] == '\n' {
        at
    } else {
        line_end(text, at + 1)
    }
}

/// What follows a prefix on the first line from `at` on that begins with it.
pub open spec fn line_after_prefix(text: Seq<char>, at: int, prefix: Seq<char>) -> Option<Seq<char>>
    decreases text.len() + 1 - at,
{
    if at >= text.len() || at < 0 {
        None
    } else if prefix.is_prefix_of(text.skip(at)) {
        Some(text.subrange(at + prefix.len(), line_end(text, at + prefix.len() as int)))
    } else {
        proof {
            line_end_is_within(text, at);
        }
        line_after_prefix(text, line_end(text, at) + 1, prefix)
    }
}

/// A line ends at or after any place on it, and within the text.
pub proof fn line_end_is_within(text: Seq<char>, at: int)
    requires
        0 <= at <= text.len(),
    ensures
        at <= line_end(text, at) <= text.len(),
    decreases text.len() - at,
{
    if at < text.len() && text[at] != '\n' {
        line_end_is_within(text, at + 1);
    }
}

/// Finds what follows a prefix on the first line that begins with it.
pub fn find_line_after_prefix(text: &str, prefix: &str) -> (r: Option<String>)
    ensures
        r is Some <==> line_after_prefix(text@, 0, prefix@) is Some,
        r matches Some(rest) ==> line_after_prefix(text@, 0, prefix@) == Some(rest@),
{
    let chars = to_chars(text);
    let start = to_chars(prefix);
    let mut at: usize = 0;
    while at < chars.len()
        invariant
            chars@ == text@,
            start@ == prefix@,
            at <= chars@.len() + 1,
            line_after_prefix(text@, 0, prefix@) == line_after_prefix(text@, at as int, prefix@),
        decreases chars.len() + 1 - at,
    {
        if chars_start_with(&chars, at, &start) {
            let from: usize = at + start.len();
            let to: usize = find_line_end(&chars, from);
            return Some(from_chars(&chars, from, to));
        }
        let end: usize = find_line_end(&chars, at);
        let length: usize = chars.len();
        if end == length {
            assert(line_after_prefix(text@, end + 1, prefix@) is None);
            return None;
        }
        at = end + 1;
    }
    None
}

fn find_line_end(chars: &Vec<char>, at: usize) -> (end: usize)
    requires
        at <= chars@.len(),
    ensures
        end == line_end(chars@, at as int),
        at <= end <= chars@.len(),
{
    let mut end: usize = at;
    while end < chars.len() && chars[end] != '\n'
        invariant
            at <= end <= chars@.len(),
            line_end(chars@, at as int) == line_end(chars@, end as int),
        ensures
            end == chars@.len() || chars@[end as int] == '\n',
        decreases chars.len() - end,
    {
        end = end + 1;
    }
    end
}

/// Tells whether some characters follow a place in others.
pub fn chars_start_with(chars: &Vec<char>, at: usize, prefix: &Vec<char>) -> (b: bool)
    requires
        at <= chars@.len(),
    ensures
        b == prefix@.is_prefix_of(chars@.skip(at as int)),
{
    let length: usize = chars.len();
    if prefix.len() > length - at {
        return false;
    }
    let mut i: usize = 0;
    while i < prefix.len()
        invariant
            length == chars@.len(),
            i <= prefix@.len() <= chars@.len() - at,
            forall|j: int| 0 <= j < i ==> chars@[at + j] == #[trigger] prefix@[j],
        decreases prefix.len() - i,
    {
        if chars[at + i] != prefix[i] {
            assert(chars@.skip(at as int)[i as int] != prefix@[i as int]);
            assert(chars@.skip(at as int).take(prefix@.len() as int)[i as int] != prefix@[i as int]);
            return false;
        }
        i = i + 1;
    }
    assert(prefix@ =~= chars@.skip(at as int).take(prefix@.len() as int));
    true
}

/// Whether a text stands before another in a dictionary.
pub open spec fn precedes(a: Seq<char>, b: Seq<char>) -> bool
    decreases a.len(),
{
    if b.len() == 0 {
        false
    } else if a.len() == 0 {
        true
    } else if a[0] != b[0] {
        a[0] < b[0]
    } else {
        precedes(a.drop_first(), b.drop_first())
    }
}

/// Tells whether a text stands before another in a dictionary.
pub fn is_before(a: &str, b: &str) -> (r: bool)
    ensures
        r == precedes(a@, b@),
{
    let x = to_chars(a);
    let y = to_chars(b);
    let mut i: usize = 0;
    assert(x@.skip(0) =~= x@);
    assert(y@.skip(0) =~= y@);
    while i < x.len() && i < y.len()
        invariant
            x@ == a@,
            y@ == b@,
            i <= x@.len(),
            i <= y@.len(),
            precedes(a@, b@) == precedes(x@.skip(i as int), y@.skip(i as int)),
        decreases x.len() - i,
    {
        if x[i] != y[i] {
            return x[i] < y[i];
        }
        assert(x@.skip(i as int).drop_first() =~= x@.skip(i + 1));
        assert(y@.skip(i as int).drop_first() =~= y@.skip(i + 1));
        i = i + 1;
    }
    i < y.len()
}

/// The order of a dictionary is one: no text stands before itself, what stands before a text
/// stands before all that stand behind it, and of two different texts one stands before the
/// other.
pub proof fn a_dictionary_is_in_order(a: Seq<char>, b: Seq<char>, c: Seq<char>)
    ensures
        !precedes(a, a),
        precedes(a, b) && precedes(b, c) ==> precedes(a, c),
        a == b || precedes(a, b) || precedes(b, a),
    decreases a.len() + b.len(),
{
    if a.len() > 0 && b.len() > 0 && a[0] == b[0] {
        a_dictionary_is_in_order(a.drop_first(), b.drop_first(), c.drop_first());
        if a.drop_first() == b.drop_first() {
            assert(a =~= seq![a[0]] + a.drop_first());
            assert(b =~= seq![b[0]] + b.drop_first());
        }
    } else if a.len() > 0 {
        a_dictionary_is_in_order(a.drop_first(), Seq::empty(), Seq::empty());
    } else if b.len() == 0 {
        assert(a =~= b);
    }
}

/// Parts put together are those of one lot of them followed by those of the rest, and a part
/// on its own is itself.
pub proof fn parts_keep_their_order<T>(first: Seq<Seq<T>>, second: Seq<Seq<T>>)
    ensures
        all_together(first + second) == all_together(first) + all_together(second),
        first.len() == 0 ==> all_together(first).len() == 0,
        first.len() == 1 ==> all_together(first) == first[0],
    decreases second.len(),
{
    reveal_with_fuel(all_together, 2);
    if first.len() == 1 {
        assert(all_together(first) =~= first[0]);
    }
    if second.len() == 0 {
        assert(first + second =~= first);
        assert(all_together(first) + all_together(second) =~= all_together(first));
    } else {
        parts_keep_their_order(first, second.drop_last());
        assert((first + second).drop_last() =~= first + second.drop_last());
        assert(all_together(first + second) =~= all_together(first) + all_together(second));
    }
}

/// Joined parts are those of one lot, the separator, and those of the rest, and a part on its
/// own is itself: a separator stands between each two and nowhere else.
pub proof fn a_separator_stands_between_each_two(
    first: Seq<Seq<char>>,
    second: Seq<Seq<char>>,
    separator: Seq<char>,
)
    ensures
        first.len() == 0 ==> joined(first, separator).len() == 0,
        first.len() == 1 ==> joined(first, separator) == first[0],
        first.len() > 0 && second.len() > 0 ==> joined(first + second, separator) == joined(
            first,
            separator,
        ) + separator + joined(second, separator),
    decreases second.len(),
{
    if first.len() > 0 && second.len() > 0 {
        let both = first + second;
        assert(both.drop_last() =~= first + second.drop_last());
        assert(both.last() == second.last());
        if second.len() == 1 {
            assert(both.drop_last() =~= first);
            assert(joined(both, separator) =~= joined(first, separator) + separator + joined(
                second,
                separator,
            ));
        } else {
            a_separator_stands_between_each_two(first, second.drop_last(), separator);
            assert(joined(both, separator) =~= joined(first, separator) + separator + joined(
                second,
                separator,
            ));
        }
    }
}

/// A number reads back out of its text, which is digits only and begins with a zero for zero
/// alone.
pub proof fn a_number_reads_back(n: nat)
    ensures
        is_digits(decimal(n)),
        number(decimal(n)) == n,
        n > 0 ==> decimal(n)[0] != '0',
    decreases n,
{
    if n < 10 {
        lemma_digit(n);
        let one = decimal(n);
        assert(one.drop_last() =~= Seq::<char>::empty());
        reveal_with_fuel(number, 2);
    } else {
        let shorter = decimal(n / 10);
        a_number_reads_back(n / 10);
        lemma_digit(n % 10);
        assert(decimal(n).drop_last() =~= shorter);
        assert(decimal(n).last() == digit(n % 10));
        assert forall|i: int| 0 <= i < decimal(n).len() implies is_digit(
            #[trigger] decimal(n)[i],
        ) by {
            if i < shorter.len() {
                assert(decimal(n)[i] == shorter[i]);
            }
        }
    }
}

proof fn lemma_digit(n: nat)
    requires
        n < 10,
    ensures
        is_digit(digit(n)),
        digit(n) as u32 - '0' as u32 == n,
        n > 0 ==> digit(n) != '0',
{
}

/// An integer of 64 bits reads back out of its text.
pub proof fn an_integer_reads_back(n: i64)
    ensures
        parsed_i64(signed_decimal(n as int)) == Some(n as int),
{
    if n < 0 {
        let digits = decimal((-n) as nat);
        a_number_reads_back((-n) as nat);
        assert(signed_decimal(n as int).drop_first() =~= digits);
    } else {
        a_number_reads_back(n as nat);
        assert(is_digit(decimal(n as nat)[0]));
    }
}

/// A text that is no integer reads as none: not one with anything but digits behind its sign,
/// nor one without a digit.
pub proof fn only_digits_read_as_a_number(text: Seq<char>, i: int)
    requires
        0 < i < text.len(),
        !('0' <= text[i] <= '9'),
    ensures
        parsed_i64(text) is None,
        parsed_i64(Seq::empty()) is None,
{
    let rest = text.drop_first();
    assert(rest[i - 1] == text[i]);
    assert(!is_digit(rest[i - 1]));
    assert(!is_digit(text[i]));
}

/// A padded text begins with the text, is at least as wide as asked, no wider than it has to
/// be, and has nothing but spaces behind the text.
pub proof fn padding_is_spaces_behind_the_text(text: Seq<char>, width: nat, i: int)
    ensures
        text.is_prefix_of(padded(text, width)),
        padded(text, width).len() == (if text.len() > width { text.len() } else { width }),
        text.len() <= i < padded(text, width).len() ==> padded(text, width)[i] == ' ',
{
    assert(text =~= padded(text, width).take(text.len() as int));
}

/// Trimming takes off white space and nothing else, and all of it at both ends: what is left
/// stands in the text between white space, and neither begins nor ends with any.
pub proof fn trimming_takes_off_white_space_alone(text: Seq<char>) -> (sides: (Seq<char>, Seq<char>))
    ensures
        text == sides.0 + trimmed(text) + sides.1,
        forall|i: int| 0 <= i < sides.0.len() ==> is_white_space(#[trigger] sides.0[i]),
        forall|i: int| 0 <= i < sides.1.len() ==> is_white_space(#[trigger] sides.1[i]),
        trimmed(text).len() > 0 ==> !is_white_space(trimmed(text)[0]) && !is_white_space(
            trimmed(text).last(),
        ),
{
    let lead = lemma_trimmed_start(text);
    let tail = lemma_trimmed_end(trimmed_start(text));
    assert(text =~= lead + trimmed(text) + tail);
    if trimmed(text).len() > 0 {
        assert(trimmed_start(text)[0] == trimmed(text)[0]);
    }
    (lead, tail)
}

/// Trimming the end takes off white space and nothing else, and all of it.
pub proof fn trimming_the_end_takes_off_white_space_alone(text: Seq<char>) -> (tail: Seq<char>)
    ensures
        text == trimmed_end(text) + tail,
        forall|i: int| 0 <= i < tail.len() ==> is_white_space(#[trigger] tail[i]),
        trimmed_end(text).len() > 0 ==> !is_white_space(trimmed_end(text).last()),
{
    lemma_trimmed_end(text)
}

proof fn lemma_trimmed_end(text: Seq<char>) -> (tail: Seq<char>)
    ensures
        text == trimmed_end(text) + tail,
        forall|i: int| 0 <= i < tail.len() ==> is_white_space(#[trigger] tail[i]),
        trimmed_end(text).len() > 0 ==> !is_white_space(trimmed_end(text).last()),
    decreases text.len(),
{
    if text.len() > 0 && is_white_space(text.last()) {
        let shorter = text.drop_last();
        let tail = lemma_trimmed_end(shorter);
        assert(shorter == trimmed_end(text) + tail);
        assert(text =~= shorter.push(text.last()));
        assert(text =~= trimmed_end(text) + tail.push(text.last()));
        tail.push(text.last())
    } else {
        assert(text =~= text + Seq::<char>::empty());
        Seq::empty()
    }
}

proof fn lemma_trimmed_start(text: Seq<char>) -> (lead: Seq<char>)
    ensures
        text == lead + trimmed_start(text),
        forall|i: int| 0 <= i < lead.len() ==> is_white_space(#[trigger] lead[i]),
        trimmed_start(text).len() > 0 ==> !is_white_space(trimmed_start(text)[0]),
    decreases text.len(),
{
    if text.len() > 0 && is_white_space(text[0]) {
        let shorter = text.drop_first();
        let lead = lemma_trimmed_start(shorter);
        assert(shorter == lead + trimmed_start(text));
        assert(text =~= seq![text[0]] + shorter);
        assert(text =~= (seq![text[0]] + lead) + trimmed_start(text));
        seq![text[0]] + lead
    } else {
        assert(text =~= Seq::<char>::empty() + text);
        Seq::empty()
    }
}

/// A shortened text is the text itself where it fits; else it is as long as it may be, begins
/// as the text does, and only its last character says that something is missing.
pub proof fn a_shortened_text_begins_as_the_text_does(text: Seq<char>, max: nat, i: int)
    requires
        max > 0,
    ensures
        text.len() <= max ==> shortened(text, max) == text,
        text.len() > max ==> shortened(text, max).len() == max && shortened(text, max).last()
            == '\u{2026}',
        0 <= i < max - 1 && i < text.len() ==> shortened(text, max)[i] == text[i],
{
}

/// Capitals leave a text as long as it was, and change its lower-case ASCII letters alone,
/// each to the capital as far along in its own alphabet.
pub proof fn capitals_change_letters_alone(text: Seq<char>, i: int)
    requires
        0 <= i < text.len(),
    ensures
        upper(text).len() == text.len(),
        'a' <= text[i] <= 'z' ==> 'A' <= upper(text)[i] <= 'Z' && upper(text)[i] as u32
            - 'A' as u32 == text[i] as u32 - 'a' as u32,
        !('a' <= text[i] <= 'z') ==> upper(text)[i] == text[i],
        upper(upper(text)) == upper(text),
{
    assert(upper(upper(text)) =~= upper(text)) by {
        assert forall|j: int| 0 <= j < text.len() implies upper(upper(text))[j] == upper(
            text,
        )[j] by {}
    }
}

/// A cut moved on to the next character boundary passes no boundary by, and stays where it is
/// on one; one moved back does the same.
pub proof fn a_cut_stops_at_the_nearest_boundary(bytes: Seq<u8>, at: int, k: int)
    requires
        0 <= at <= bytes.len(),
    ensures
        at <= k < boundary_from(bytes, at) ==> !is_char_boundary(bytes, k),
        at < bytes.len() && is_char_boundary(bytes, at) ==> boundary_from(bytes, at) == at,
        boundary_until(bytes, at) < k <= at ==> !is_char_boundary(bytes, k),
        is_char_boundary(bytes, at) ==> boundary_until(bytes, at) == at,
    decreases bytes.len(),
{
    lemma_next_boundary_is_nearest(bytes, at, k);
    lemma_previous_boundary_is_nearest(bytes, at, k);
}

proof fn lemma_next_boundary_is_nearest(bytes: Seq<u8>, at: int, k: int)
    requires
        0 <= at <= bytes.len(),
    ensures
        at <= k < boundary_from(bytes, at) ==> !is_char_boundary(bytes, k),
    decreases bytes.len() - at,
{
    if at < bytes.len() && !is_char_boundary(bytes, at) {
        lemma_next_boundary_is_nearest(bytes, at + 1, k);
    }
}

proof fn lemma_previous_boundary_is_nearest(bytes: Seq<u8>, at: int, k: int)
    requires
        0 <= at <= bytes.len(),
    ensures
        boundary_until(bytes, at) < k <= at ==> !is_char_boundary(bytes, k),
    decreases at,
{
    if at > 0 && !is_char_boundary(bytes, at) {
        lemma_previous_boundary_is_nearest(bytes, at - 1, k);
    }
}

/// A line ends at a line break or at the end of the text, and no line break stands between.
pub proof fn a_line_ends_at_the_next_break(text: Seq<char>, at: int, k: int)
    requires
        0 <= at <= text.len(),
    ensures
        line_end(text, at) == text.len() || (line_end(text, at) < text.len() && text[line_end(
            text,
            at,
        )] == '\n'),
        at <= k < line_end(text, at) ==> text[k] != '\n',
        at <= line_end(text, at) <= text.len(),
    decreases text.len() - at,
{
    if at < text.len() && text[at] != '\n' {
        a_line_ends_at_the_next_break(text, at + 1, k);
    }
}

/// Whether a line begins at a place, and with a prefix.
pub open spec fn begins_line(text: Seq<char>, at: int, prefix: Seq<char>) -> bool {
    &&& 0 <= at < text.len()
    &&& at == 0 || text[at - 1] == '\n'
    &&& prefix.is_prefix_of(text.skip(at))
}

/// What is found behind a prefix is the rest of the first line that begins with it, up to the
/// line break behind it, wherever that line stands.
pub proof fn the_first_prefixed_line_is_found(
    text: Seq<char>,
    prefix: Seq<char>,
    at: int,
    end: int,
)
    requires
        begins_line(text, at, prefix),
        forall|k: int| 0 <= k < at ==> !#[trigger] begins_line(text, k, prefix),
        at + prefix.len() <= end <= text.len(),
        end == text.len() || text[end] == '\n',
        forall|k: int| at + prefix.len() <= k < end ==> #[trigger] text[k] != '\n',
    ensures
        line_after_prefix(text, 0, prefix) == Some(text.subrange(at + prefix.len(), end)),
{
    lemma_prefixed_line(text, prefix, 0, at);
    lemma_line_end_at(text, at + prefix.len(), end);
}

proof fn lemma_line_end_at(text: Seq<char>, at: int, end: int)
    requires
        0 <= at <= end <= text.len(),
        end == text.len() || text[end] == '\n',
        forall|k: int| at <= k < end ==> #[trigger] text[k] != '\n',
    ensures
        line_end(text, at) == end,
    decreases end - at,
{
    if at < end {
        lemma_line_end_at(text, at + 1, end);
    }
}

proof fn lemma_prefixed_line(text: Seq<char>, prefix: Seq<char>, from: int, at: int)
    requires
        0 <= from <= at,
        from == 0 || text[from - 1] == '\n',
        begins_line(text, at, prefix),
        forall|k: int| 0 <= k < at ==> !#[trigger] begins_line(text, k, prefix),
    ensures
        line_after_prefix(text, from, prefix) == line_after_prefix(text, at, prefix),
    decreases at - from,
{
    if from < at {
        assert(!begins_line(text, from, prefix));
        a_line_ends_at_the_next_break(text, from, at - 1);
        lemma_prefixed_line(text, prefix, line_end(text, from) + 1, at);
    }
}

/// No line begins with a prefix where nothing is found behind it.
pub proof fn nothing_is_found_where_no_line_has_the_prefix(text: Seq<char>, prefix: Seq<char>)
    ensures
        line_after_prefix(text, 0, prefix) is None <==> forall|k: int|
            !#[trigger] begins_line(text, k, prefix),
{
    if forall|k: int| !#[trigger] begins_line(text, k, prefix) {
        lemma_no_prefixed_line(text, prefix, 0);
    } else {
        let k = choose|k: int| #[trigger] begins_line(text, k, prefix);
        let first = lemma_first_prefixed_line(text, prefix, k);
        lemma_prefixed_line(text, prefix, 0, first);
    }
}

proof fn lemma_no_prefixed_line(text: Seq<char>, prefix: Seq<char>, from: int)
    requires
        0 <= from,
        from == 0 || from > text.len() || text[from - 1] == '\n',
        forall|k: int| !#[trigger] begins_line(text, k, prefix),
    ensures
        line_after_prefix(text, from, prefix) is None,
    decreases text.len() + 1 - from,
{
    if from < text.len() {
        assert(!begins_line(text, from, prefix));
        a_line_ends_at_the_next_break(text, from, from);
        lemma_no_prefixed_line(text, prefix, line_end(text, from) + 1);
    }
}

proof fn lemma_first_prefixed_line(text: Seq<char>, prefix: Seq<char>, at: int) -> (first: int)
    requires
        begins_line(text, at, prefix),
    ensures
        begins_line(text, first, prefix),
        forall|k: int| 0 <= k < first ==> !#[trigger] begins_line(text, k, prefix),
    decreases at,
{
    if forall|k: int| 0 <= k < at ==> !#[trigger] begins_line(text, k, prefix) {
        at
    } else {
        let k = choose|k: int| 0 <= k < at && #[trigger] begins_line(text, k, prefix);
        lemma_first_prefixed_line(text, prefix, k)
    }
}

/// A dictionary goes by the first character in which two texts differ, and puts a text before
/// every longer one that begins with it.
pub proof fn a_dictionary_goes_by_the_first_difference(
    common: Seq<char>,
    a: Seq<char>,
    b: Seq<char>,
)
    ensures
        a.len() > 0 && b.len() > 0 && a[0] < b[0] ==> precedes(common + a, common + b)
            && !precedes(common + b, common + a),
        b.len() > 0 ==> precedes(common, common + b) && !precedes(common + b, common),
    decreases common.len(),
{
    if common.len() == 0 {
        assert(common + a =~= a);
        assert(common + b =~= b);
    } else {
        let rest = common.drop_first();
        a_dictionary_goes_by_the_first_difference(rest, a, b);
        assert((common + a).drop_first() =~= rest + a);
        assert((common + b).drop_first() =~= rest + b);
    }
}

} // verus!
