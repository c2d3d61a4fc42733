//! What the decoding is for: percent escapes and the escapes of JavaScript and
//! HTML stand for the characters that they name, in whatever case they are
//! written, and everything else stays.

use vstd::prelude::*;
use vstd::utf8::*;

use crate::engine::decode::{
    byte_escape, decimal_entity, decimal_number, decimal_run, decoded_further, decoded_once,
    digit_value, escape, escapes_decoded, hex_entity, hex_number, hex_run, hex_value, is_decimal,
    percent_decoded, percent_decoded_text, percent_escape, scalar_char, unicode_escape,
};
use crate::laws::text::lacks;
use crate::text::{
    ascii_lower, first_position, lemma_first_position, lemma_first_position_bound, lossy_text,
};

verus! {

/// The code is that of a hexadecimal digit with the value `d`, in either case.
pub open spec fn is_hex_digit(code: int, d: int) -> bool {
    ||| 0 <= d < 10 && code == 0x30 + d
    ||| 10 <= d < 16 && code == 0x61 + d - 10
    ||| 10 <= d < 16 && code == 0x41 + d - 10
}

/// The code is that of no hexadecimal digit.
pub open spec fn is_no_hex_digit(code: int) -> bool {
    forall|d: int| 0 <= d < 16 ==> !#[trigger] is_hex_digit(code, d)
}

/// The number that some digits write in a base, by their values.
pub open spec fn positional(values: Seq<int>, base: int) -> int
    decreases values.len(),
{
    if values.len() == 0 {
        0
    } else {
        positional(values.drop_last(), base) * base + values.last()
    }
}

/// The characters are hexadecimal digits with these values.
pub open spec fn hex_written(digits: Seq<char>, values: Seq<int>) -> bool {
    digits.len() == values.len() && forall|i: int|
        0 <= i < digits.len() ==> is_hex_digit((#[trigger] digits[i]) as int, values[i])
}

/// The code is that of a decimal digit with the value `d`.
pub open spec fn is_decimal_digit(code: int, d: int) -> bool {
    0 <= d < 10 && code == 0x30 + d
}

/// The characters are decimal digits with these values.
pub open spec fn decimal_written(digits: Seq<char>, values: Seq<int>) -> bool {
    digits.len() == values.len() && forall|i: int|
        0 <= i < digits.len() ==> is_decimal_digit((#[trigger] digits[i]) as int, values[i])
}

/// The number is that of a character.
pub open spec fn names_a_character(n: int) -> bool {
    0 <= n < 0xd800 || 0xdfff < n <= 0x10ffff
}

/// A byte is a hexadecimal digit, in either case, with its value, or none.
pub proof fn law_hex_digits(b: u8, d: u8)
    ensures
        hex_value(b) == Some(d) <==> is_hex_digit(b as int, d as int),
        hex_value(b) is None <==> is_no_hex_digit(b as int),
{
    if hex_value(b) is Some {
        assert(is_hex_digit(b as int, hex_value(b)->0 as int));
    } else {
        assert forall|k: int| 0 <= k < 16 implies !#[trigger] is_hex_digit(b as int, k) by {}
    }
}

proof fn lemma_digit_value(c: char, d: int)
    ensures
        is_hex_digit(c as int, d) ==> digit_value(c) == Some(d as u8),
        is_no_hex_digit(c as int) ==> digit_value(c) is None,
{
    if digit_value(c) is Some {
        assert(is_hex_digit(c as int, digit_value(c)->0 as int));
    }
}

/// A percent sign and two hexadecimal digits, in either case, stand for the byte
/// that they write, whatever follows.
pub proof fn law_percent_escape_is_its_byte(v: u8, high: u8, low: u8, rest: Seq<u8>)
    requires
        is_hex_digit(high as int, v as int / 16),
        is_hex_digit(low as int, v as int % 16),
    ensures
        percent_decoded(seq![0x25u8, high, low] + rest) == seq![v] + percent_decoded(rest),
{
    let e = seq![0x25u8, high, low] + rest;
    law_hex_digits(high, (v / 16) as u8);
    law_hex_digits(low, (v % 16) as u8);
    assert(e.skip(3) =~= rest);
    assert(percent_escape(e) == Some(v));
}

/// A byte that starts no percent escape stays, but for the plus, which is a
/// space.
pub proof fn law_other_bytes_stay(b: u8, rest: Seq<u8>)
    requires
        b == 0x25 ==> rest.len() < 2 || is_no_hex_digit(rest[0] as int) || is_no_hex_digit(
            rest[1] as int,
        ),
    ensures
        percent_decoded(Seq::empty()) == Seq::<u8>::empty(),
        percent_decoded(seq![b] + rest) == seq![
            if b == 0x2b {
                0x20u8
            } else {
                b
            },
        ] + percent_decoded(rest),
{
    let s = seq![b] + rest;
    if b == 0x25 && rest.len() >= 2 {
        law_hex_digits(rest[0], 0);
        law_hex_digits(rest[1], 0);
    }
    assert(s.skip(1) =~= rest);
    assert(percent_escape(s) is None);
}

/// A round of percent decoding takes the bytes of a text and gives the text of
/// the decoded bytes.
pub proof fn law_a_round_decodes_the_bytes(s: Seq<char>, t: Seq<char>)
    requires
        percent_decoded(encode_utf8(s)) == encode_utf8(t),
    ensures
        decoded_once(s) == t,
{
    encode_utf8_valid_utf8(t);
    encode_utf8_decode_utf8(t);
}

/// What a round makes of bytes is their text, also where they are no valid UTF-8:
/// then it is what a lossy reading makes of them.
pub proof fn law_a_round_reads_all_bytes(s: Seq<char>)
    ensures
        valid_utf8(percent_decoded(encode_utf8(s))) ==> decoded_once(s) == decode_utf8(
            percent_decoded(encode_utf8(s)),
        ),
        !valid_utf8(percent_decoded(encode_utf8(s))) ==> decoded_once(s) == lossy_text(
            percent_decoded(encode_utf8(s)),
        ),
{
}

/// Percent decoding goes on to a third round just as long as each round makes the
/// text shorter; a text without a percent sign is not decoded again.
pub proof fn law_three_rounds(s: Seq<char>)
    ensures
        ({
            let one = decoded_once(s);
            let two = decoded_once(one);
            let three = decoded_once(two);
            let end = percent_decoded_text(s);
            if lacks(one, '%') || encode_utf8(two).len() >= encode_utf8(one).len() {
                end == one
            } else if lacks(two, '%') || encode_utf8(three).len() >= encode_utf8(two).len() {
                end == two
            } else {
                end == three
            }
        }),
{
    reveal_with_fuel(decoded_further, 3);
    let one = decoded_once(s);
    let two = decoded_once(one);
    lemma_percent_sign(one);
    lemma_percent_sign(two);
}

proof fn lemma_percent_sign(s: Seq<char>)
    ensures
        first_position(s, '%') >= s.len() <==> lacks(s, '%'),
{
    if lacks(s, '%') {
        lemma_first_position(s, '%', s.len() as int);
    } else {
        lemma_first_position_bound(s, '%');
        let i = choose|i: int| 0 <= i < s.len() && s[i] == '%';
        if first_position(s, '%') >= s.len() {
            assert(s[i] != '%');
        }
    }
}

proof fn lemma_hex_run_of(b: Seq<char>, digits: Seq<char>, values: Seq<int>)
    requires
        hex_written(digits, values),
        digits.len() <= b.len(),
        b.take(digits.len() as int) == digits,
        digits.len() < b.len() ==> is_no_hex_digit(b[digits.len() as int] as int),
    ensures
        hex_run(b) == digits.len(),
        hex_number(digits) == positional(values, 16),
        positional(values, 16) >= 0,
    decreases digits.len(),
{
    lemma_hex_number_of(digits, values);
    lemma_hex_run_at(b, digits, values, 0);
    assert(b.skip(0) =~= b);
}

proof fn lemma_hex_run_at(b: Seq<char>, digits: Seq<char>, values: Seq<int>, i: int)
    requires
        hex_written(digits, values),
        digits.len() <= b.len(),
        b.take(digits.len() as int) == digits,
        digits.len() < b.len() ==> is_no_hex_digit(b[digits.len() as int] as int),
        0 <= i <= digits.len(),
    ensures
        hex_run(b.skip(i)) == digits.len() - i,
    decreases digits.len() - i,
{
    if i < digits.len() {
        lemma_hex_run_at(b, digits, values, i + 1);
        assert(b[i] == b.take(digits.len() as int)[i]);
        assert(is_hex_digit(digits[i] as int, values[i]));
        lemma_digit_value(b[i], values[i]);
        assert(b.skip(i).skip(1) =~= b.skip(i + 1));
    } else if i < b.len() {
        lemma_digit_value(b[i], 0);
    }
}

proof fn lemma_hex_number_of(digits: Seq<char>, values: Seq<int>)
    requires
        hex_written(digits, values),
    ensures
        hex_number(digits) == positional(values, 16),
        positional(values, 16) >= 0,
    decreases digits.len(),
{
    if digits.len() > 0 {
        let n = digits.len() - 1;
        assert(is_hex_digit(digits[n] as int, values[n]));
        lemma_digit_value(digits[n], values[n]);
        assert(hex_written(digits.drop_last(), values.drop_last())) by {
            assert forall|i: int| 0 <= i < n implies is_hex_digit(
                (#[trigger] digits.drop_last()[i]) as int,
                values.drop_last()[i],
            ) by {
                assert(digits[i] == digits.drop_last()[i]);
            }
        }
        lemma_hex_number_of(digits.drop_last(), values.drop_last());
    }
}

proof fn lemma_decimal_run_at(b: Seq<char>, digits: Seq<char>, values: Seq<int>, i: int)
    requires
        decimal_written(digits, values),
        digits.len() <= b.len(),
        b.take(digits.len() as int) == digits,
        digits.len() < b.len() ==> !('0' <= b[digits.len() as int] <= '9'),
        0 <= i <= digits.len(),
    ensures
        decimal_run(b.skip(i)) == digits.len() - i,
    decreases digits.len() - i,
{
    if i < digits.len() {
        lemma_decimal_run_at(b, digits, values, i + 1);
        assert(b[i] == b.take(digits.len() as int)[i]);
        assert(is_decimal_digit(digits[i] as int, values[i]));
        assert(b.skip(i).skip(1) =~= b.skip(i + 1));
    }
}

proof fn lemma_decimal_number_of(digits: Seq<char>, values: Seq<int>)
    requires
        decimal_written(digits, values),
    ensures
        decimal_number(digits) == positional(values, 10),
        positional(values, 10) >= 0,
    decreases digits.len(),
{
    if digits.len() > 0 {
        let n = digits.len() - 1;
        assert(is_decimal_digit(digits[n] as int, values[n]));
        let d = digits.drop_last();
        let v = values.drop_last();
        assert forall|i: int| 0 <= i < d.len() implies is_decimal_digit(
            (#[trigger] d[i]) as int,
            v[i],
        ) by {
            assert(d[i] == digits[i]);
        }
        assert(d.len() == v.len());
        assert(decimal_written(d, v));
        lemma_decimal_number_of(d, v);
    }
}

proof fn lemma_names(n: int)
    requires
        n >= 0,
    ensures
        names_a_character(n) <==> scalar_char(n as nat) is Some,
        names_a_character(n) ==> scalar_char(n as nat) == Some(n as char),
{
}

proof fn lemma_semicolon()
    ensures
        is_no_hex_digit(';' as int),
{
}

/// `\xHH` stands for the character with the number that the two digits write,
/// whatever the case of the letters, and whatever follows.
pub proof fn law_byte_escape_is_its_character(
    x: char,
    digits: Seq<char>,
    values: Seq<int>,
    rest: Seq<char>,
)
    requires
        x == 'x' || x == 'X',
        digits.len() == 2,
        hex_written(digits, values),
    ensures
        escapes_decoded(seq!['\\', x] + digits + rest) == seq![positional(values, 16) as char]
            + escapes_decoded(rest),
{
    let e = seq!['\\', x] + digits + rest;
    let d = e.subrange(2, 4);
    assert(d =~= digits);
    assert(d.take(2) =~= digits);
    lemma_hex_run_of(d, digits, values);
    assert(e.skip(4) =~= rest);
    assert(byte_escape(e) == Some((positional(values, 16) as char, 4nat)));
}

/// `\uHHHH` stands for the character with the number that the four digits write,
/// whatever the case of the letters, and whatever follows. Where that is no
/// character the escape stays.
pub proof fn law_unicode_escape_is_its_character(
    u: char,
    digits: Seq<char>,
    values: Seq<int>,
    rest: Seq<char>,
)
    requires
        u == 'u' || u == 'U',
        digits.len() == 4,
        hex_written(digits, values),
    ensures
        names_a_character(positional(values, 16)) ==> escapes_decoded(
            seq!['\\', u] + digits + rest,
        ) == seq![positional(values, 16) as char] + escapes_decoded(rest),
        !names_a_character(positional(values, 16)) ==> escapes_decoded(
            seq!['\\', u] + digits + rest,
        ) == seq!['\\'] + escapes_decoded(seq![u] + digits + rest),
{
    let e = seq!['\\', u] + digits + rest;
    let d = e.subrange(2, 6);
    assert(d =~= digits);
    assert(d.take(4) =~= digits);
    lemma_hex_run_of(d, digits, values);
    lemma_names(positional(values, 16));
    assert(e.skip(6) =~= rest);
    assert(e.skip(1) =~= seq![u] + digits + rest);
    assert(byte_escape(e) is None);
    assert(hex_entity(e) is None);
    assert(decimal_entity(e) is None);
}

/// `&#xH..;` stands for the character with the number that the digits write,
/// however many they are, whatever the case of the letters, and whatever
/// follows. Where that is no character the escape stays.
pub proof fn law_hex_entity_is_its_character(
    x: char,
    digits: Seq<char>,
    values: Seq<int>,
    rest: Seq<char>,
)
    requires
        x == 'x' || x == 'X',
        digits.len() > 0,
        hex_written(digits, values),
    ensures
        names_a_character(positional(values, 16)) ==> escapes_decoded(
            seq!['&', '#', x] + digits + seq![';'] + rest,
        ) == seq![positional(values, 16) as char] + escapes_decoded(rest),
        !names_a_character(positional(values, 16)) ==> escapes_decoded(
            seq!['&', '#', x] + digits + seq![';'] + rest,
        ) == seq!['&'] + escapes_decoded(seq!['#', x] + digits + seq![';'] + rest),
{
    let e = seq!['&', '#', x] + digits + seq![';'] + rest;
    let k = digits.len() as int;
    let t = e.skip(3);
    assert(t.take(k) =~= digits);
    assert(t[k] == ';');
    lemma_semicolon();
    lemma_hex_run_of(t, digits, values);
    let n = positional(values, 16);
    lemma_names(n);
    assert(e.subrange(3, 3 + k) =~= digits);
    assert(e.skip(k + 4) =~= rest);
    assert(e.skip(1) =~= seq!['#', x] + digits + seq![';'] + rest);
    assert(e[0] == '&' && e[1] == '#' && e[2] == x && e[3 + k] == ';');
    assert(ascii_lower(x) == 'x');
    assert(!is_decimal(e.skip(2)[0]));
    assert(decimal_run(e.skip(2)) == 0);
    assert(decimal_entity(e) is None);
    if names_a_character(n) {
        assert(hex_entity(e) == Some((n as char, (k + 4) as nat)));
        assert(escape(e) == Some((n as char, (k + 4) as nat)));
    } else {
        assert(hex_entity(e) is None);
        assert(escape(e) is None);
    }
}

/// `&#D..;` with one to seven digits stands for the character with the number
/// that they write, whatever follows. Where that is no character, or with more
/// digits, the escape stays.
pub proof fn law_decimal_entity_is_its_character(
    digits: Seq<char>,
    values: Seq<int>,
    rest: Seq<char>,
)
    requires
        digits.len() > 0,
        decimal_written(digits, values),
    ensures
        digits.len() <= 7 && names_a_character(positional(values, 10)) ==> escapes_decoded(
            seq!['&', '#'] + digits + seq![';'] + rest,
        ) == seq![positional(values, 10) as char] + escapes_decoded(rest),
        digits.len() > 7 || !names_a_character(positional(values, 10)) ==> escapes_decoded(
            seq!['&', '#'] + digits + seq![';'] + rest,
        ) == seq!['&'] + escapes_decoded(seq!['#'] + digits + seq![';'] + rest),
{
    let e = seq!['&', '#'] + digits + seq![';'] + rest;
    let k = digits.len() as int;
    let t = e.skip(2);
    assert(t.take(k) =~= digits);
    assert(t[k] == ';');
    lemma_decimal_run_at(t, digits, values, 0);
    assert(t.skip(0) =~= t);
    lemma_decimal_number_of(digits, values);
    lemma_names(positional(values, 10));
    assert(e.subrange(2, 2 + k) =~= digits);
    assert(e.skip(k + 3) =~= rest);
    assert(e.skip(1) =~= seq!['#'] + digits + seq![';'] + rest);
    assert(byte_escape(e) is None);
    assert(unicode_escape(e) is None);
    assert(e[2] == digits[0]);
    assert(is_decimal_digit(digits[0] as int, values[0]));
    assert(hex_entity(e) is None);
    assert(e[2 + k] == ';');
}

/// A character that starts no escape stays, and what follows is decoded: any
/// that is neither a backslash nor an ampersand; a backslash without the letter
/// and the digits; an ampersand without the number sign and the digits.
pub proof fn law_what_is_no_escape_stays(c: char, rest: Seq<char>)
    requires
        c == '\\' ==> {
            ||| rest.len() == 0
            ||| rest[0] != 'x' && rest[0] != 'X' && rest[0] != 'u' && rest[0] != 'U'
            ||| rest.len() < 3
            ||| is_no_hex_digit(rest[1] as int)
            ||| is_no_hex_digit(rest[2] as int)
            ||| (rest[0] == 'u' || rest[0] == 'U') && (rest.len() < 5 || is_no_hex_digit(
                rest[3] as int,
            ) || is_no_hex_digit(rest[4] as int))
        },
        c == '&' ==> {
            ||| rest.len() < 2
            ||| rest[0] != '#'
            ||| rest[1] != 'x' && rest[1] != 'X' && !('0' <= rest[1] <= '9')
            ||| (rest[1] == 'x' || rest[1] == 'X') && (rest.len() < 3 || is_no_hex_digit(
                rest[2] as int,
            ))
        },
    ensures
        escapes_decoded(Seq::empty()) == Seq::<char>::empty(),
        escapes_decoded(seq![c] + rest) == seq![c] + escapes_decoded(rest),
{
    let s = seq![c] + rest;
    assert(s.skip(1) =~= rest);
    assert(escapes_decoded(Seq::empty()) =~= Seq::<char>::empty());
    if c == '\\' && rest.len() > 0 {
        if rest.len() >= 3 {
            lemma_digit_value(rest[1], 0);
            lemma_digit_value(rest[2], 0);
            let d = s.subrange(2, 4);
            assert(d[0] == rest[1] && d.skip(1)[0] == rest[2]);
            assert(d.skip(1).skip(1).len() == 0);
            reveal_with_fuel(hex_run, 4);
        }
        if rest.len() >= 5 {
            lemma_digit_value(rest[3], 0);
            lemma_digit_value(rest[4], 0);
            let d = s.subrange(2, 6);
            assert(d[0] == rest[1] && d.skip(1)[0] == rest[2] && d.skip(1).skip(1)[0] == rest[3]
                && d.skip(1).skip(1).skip(1)[0] == rest[4]);
            reveal_with_fuel(hex_run, 6);
        }
        assert(escape(s) is None);
    } else if c == '&' {
        if rest.len() >= 3 {
            lemma_digit_value(rest[2], 0);
            assert(s.skip(3)[0] == rest[2]);
        }
        if rest.len() >= 2 {
            assert(s.skip(2)[0] == rest[1]);
        }
        assert(hex_entity(s) is None);
        assert(decimal_entity(s) is None);
        assert(escape(s) is None);
    } else {
        assert(escape(s) is None);
    }
}

/// An entity that no semicolon ends right behind its digits stays.
pub proof fn law_open_entity_stays(x: char, digits: Seq<char>, values: Seq<int>, rest: Seq<char>)
    requires
        rest.len() > 0 ==> rest[0] != ';' && is_no_hex_digit(rest[0] as int),
        digits.len() > 0,
        x == 'x' || x == 'X',
    ensures
        hex_written(digits, values) ==> escapes_decoded(seq!['&', '#', x] + digits + rest) == seq![
            '&',
        ] + escapes_decoded(seq!['#', x] + digits + rest),
        decimal_written(digits, values) ==> escapes_decoded(seq!['&', '#'] + digits + rest)
            == seq!['&'] + escapes_decoded(seq!['#'] + digits + rest),
{
    let k = digits.len() as int;
    if hex_written(digits, values) {
        let e = seq!['&', '#', x] + digits + rest;
        let t = e.skip(3);
        assert(t.take(k) =~= digits);
        lemma_hex_run_of(t, digits, values);
        assert(e.skip(1) =~= seq!['#', x] + digits + rest);
        assert(!is_decimal(e.skip(2)[0]));
        assert(decimal_run(e.skip(2)) == 0);
        assert(hex_entity(e) is None);
        assert(decimal_entity(e) is None);
        assert(escape(e) is None);
    }
    if decimal_written(digits, values) {
        let e = seq!['&', '#'] + digits + rest;
        let t = e.skip(2);
        assert(t.take(k) =~= digits);
        if rest.len() > 0 {
            assert(t[k] == rest[0]);
            if '0' <= rest[0] <= '9' {
                assert(is_hex_digit(rest[0] as int, rest[0] as int - 0x30));
            }
        }
        lemma_decimal_run_at(t, digits, values, 0);
        assert(t.skip(0) =~= t);
        assert(e.skip(1) =~= seq!['#'] + digits + rest);
        assert(e[2] == digits[0]);
        assert(is_decimal_digit(digits[0] as int, values[0]));
        assert(hex_entity(e) is None);
        assert(decimal_entity(e) is None);
        assert(escape(e) is None);
    }
}

} // verus!
