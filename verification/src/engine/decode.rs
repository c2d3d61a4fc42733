//! Undoing the encodings behind which payloads hide: percent escapes, nested
//! up to three deep, and the escapes of JavaScript and HTML.

use vstd::prelude::*;
use vstd::slice::*;
use vstd::string::*;
use vstd::utf8::*;

use crate::text::{
    ascii_lower, chars_of, decimal, decode_lossy, find_first, first_position,
    lemma_first_position_bound, to_ascii_lower, utf8_text,
};

verus! {

/// The value of a hexadecimal digit.
pub open spec fn hex_value(b: u8) -> Option<u8> {
    if 0x30 <= b <= 0x39 {
        Some((b - 0x30) as u8)
    } else if 0x61 <= b <= 0x66 {
        Some((b - 0x61 + 10) as u8)
    } else if 0x41 <= b <= 0x46 {
        Some((b - 0x41 + 10) as u8)
    } else {
        None
    }
}

/// The byte that a percent escape at the start of `b` stands for.
pub open spec fn percent_escape(b: Seq<u8>) -> Option<u8> {
    if b.len() >= 3 && b[0] == 0x25 && hex_value(b[1]) is Some && hex_value(b[2]) is Some {
        Some((hex_value(b[1])->0 * 16 + hex_value(b[2])->0) as u8)
    } else {
        None
    }
}

/// What a byte outside every percent escape stands for: a plus is a space.
pub open spec fn plus_as_space(b: u8) -> u8 {
    if b == 0x2b {
        0x20
    } else {
        b
    }
}

/// The bytes with every percent escape and every plus replaced, from left to
/// right, once.
pub open spec fn percent_decoded(b: Seq<u8>) -> Seq<u8>
    decreases b.len(),
{
    if b.len() == 0 {
        Seq::empty()
    } else if percent_escape(b) is Some {
        seq![percent_escape(b)->0] + percent_decoded(b.skip(3))
    } else {
        seq![plus_as_space(b[0])] + percent_decoded(b.skip(1))
    }
}

/// A text after one round of percent decoding.
pub open spec fn decoded_once(s: Seq<char>) -> Seq<char> {
    utf8_text(percent_decoded(encode_utf8(s)))
}

/// A text after up to `rounds` more rounds: a round is made while there is a
/// percent sign, and kept only if it makes the text shorter.
pub open spec fn decoded_further(s: Seq<char>, rounds: nat) -> Seq<char>
    decreases rounds,
{
    if rounds == 0 || first_position(s, '%') >= s.len() {
        s
    } else if encode_utf8(decoded_once(s)).len() < encode_utf8(s).len() {
        decoded_further(decoded_once(s), (rounds - 1) as nat)
    } else {
        s
    }
}

/// A text after all its rounds of percent decoding, three at most.
pub open spec fn percent_decoded_text(s: Seq<char>) -> Seq<char> {
    decoded_further(decoded_once(s), 2)
}

/// The value of a hexadecimal digit that is given as a character.
pub open spec fn digit_value(c: char) -> Option<u8> {
    if '0' <= c <= '9' {
        Some((c as int - 0x30) as u8)
    } else if 'a' <= c <= 'f' {
        Some((c as int - 0x61 + 10) as u8)
    } else if 'A' <= c <= 'F' {
        Some((c as int - 0x41 + 10) as u8)
    } else {
        None
    }
}

/// The number of hexadecimal digits at the start.
pub open spec fn hex_run(b: Seq<char>) -> nat
    decreases b.len(),
{
    if b.len() > 0 && digit_value(b[0]) is Some {
        1 + hex_run(b.skip(1))
    } else {
        0
    }
}

/// The number that hexadecimal digits write.
pub open spec fn hex_number(b: Seq<char>) -> nat
    decreases b.len(),
{
    if b.len() == 0 {
        0
    } else {
        hex_number(b.drop_last()) * 16 + (match digit_value(b.last()) {
            Some(d) => d as nat,
            None => 0,
        })
    }
}

/// Is the character a decimal digit?
pub open spec fn is_decimal(c: char) -> bool {
    '0' <= c <= '9'
}

/// The number of decimal digits at the start.
pub open spec fn decimal_run(b: Seq<char>) -> nat
    decreases b.len(),
{
    if b.len() > 0 && is_decimal(b[0]) {
        1 + decimal_run(b.skip(1))
    } else {
        0
    }
}

/// The number that decimal digits write.
pub open spec fn decimal_number(b: Seq<char>) -> nat
    decreases b.len(),
{
    if b.len() == 0 {
        0
    } else {
        (decimal_number(b.drop_last()) * 10 + (b.last() as int - 0x30)) as nat
    }
}

/// The character with the number `v`, if it is one.
pub open spec fn scalar_char(v: nat) -> Option<char> {
    if v <= u32::MAX && is_scalar(v as u32) {
        Some(v as char)
    } else {
        None
    }
}

/// The character and the length of an escape `\xHH` at the start of `b`.
pub open spec fn byte_escape(b: Seq<char>) -> Option<(char, nat)> {
    if b.len() >= 4 && b[0] == '\\' && ascii_lower(b[1]) == 'x' && hex_run(b.subrange(2, 4)) == 2 {
        Some((hex_number(b.subrange(2, 4)) as char, 4))
    } else {
        None
    }
}

/// The character and the length of an escape `\uHHHH` at the start of `b`.
pub open spec fn unicode_escape(b: Seq<char>) -> Option<(char, nat)> {
    if b.len() >= 6 && b[0] == '\\' && ascii_lower(b[1]) == 'u' && hex_run(b.subrange(2, 6)) == 4
        && scalar_char(hex_number(b.subrange(2, 6))) is Some {
        Some((scalar_char(hex_number(b.subrange(2, 6)))->0, 6))
    } else {
        None
    }
}

/// The character and the length of an entity `&#xH..;` at the start of `b`.
pub open spec fn hex_entity(b: Seq<char>) -> Option<(char, nat)> {
    let k = hex_run(b.skip(3));
    let c = scalar_char(hex_number(b.subrange(3, 3 + k as int)));
    if b.len() >= 4 && b[0] == '&' && b[1] == '#' && ascii_lower(b[2]) == 'x' && k > 0 && 3 + k
        < b.len() && b[3 + k as int] == ';' && c is Some {
        Some((c->0, k + 4))
    } else {
        None
    }
}

/// The character and the length of an entity `&#D..;`, of one to seven digits,
/// at the start of `b`.
pub open spec fn decimal_entity(b: Seq<char>) -> Option<(char, nat)> {
    let k = decimal_run(b.skip(2));
    let c = scalar_char(decimal_number(b.subrange(2, 2 + k as int)));
    if b.len() >= 4 && b[0] == '&' && b[1] == '#' && 0 < k <= 7 && 2 + k < b.len() && b[2
        + k as int] == ';' && c is Some {
        Some((c->0, k + 3))
    } else {
        None
    }
}

/// The character and the length of the escape at the start of `b`.
pub open spec fn escape(b: Seq<char>) -> Option<(char, nat)> {
    if byte_escape(b) is Some {
        byte_escape(b)
    } else if unicode_escape(b) is Some {
        unicode_escape(b)
    } else if hex_entity(b) is Some {
        hex_entity(b)
    } else {
        decimal_entity(b)
    }
}

/// The text with every escape replaced, from left to right, once.
pub open spec fn escapes_decoded(b: Seq<char>) -> Seq<char>
    decreases b.len(),
{
    if b.len() == 0 {
        Seq::empty()
    } else if escape(b) is Some && 0 < (escape(b)->0).1 <= b.len() {
        seq![(escape(b)->0).0] + escapes_decoded(b.skip((escape(b)->0).1 as int))
    } else {
        seq![b[0]] + escapes_decoded(b.skip(1))
    }
}

/// The value of a hexadecimal digit.
pub fn hex_val(b: u8) -> (r: Option<u8>)
    ensures
        r == hex_value(b),
{
    if 0x30 <= b && b <= 0x39 {
        Some(b - 0x30)
    } else if 0x61 <= b && b <= 0x66 {
        Some(b - 0x61 + 10)
    } else if 0x41 <= b && b <= 0x46 {
        Some(b - 0x41 + 10)
    } else {
        None
    }
}

/// The bytes with every percent escape and every plus replaced, once.
pub fn percent_decode_bytes(bytes: &[u8]) -> (out: Vec<u8>)
    ensures
        out@ == percent_decoded(bytes@),
{
    let mut out: Vec<u8> = Vec::new();
    let n: usize = bytes.len();
    let mut i: usize = 0;
    assert(bytes@.skip(0) == bytes@);
    while i < n
        invariant
            i <= n == bytes@.len(),
            out@ + percent_decoded(bytes@.skip(i as int)) == percent_decoded(bytes@),
        decreases n - i,
    {
        let ghost rest = bytes@.skip(i as int);
        let mut step: usize = 1;
        let mut b: u8 = if bytes[i] == 0x2b {
            0x20
        } else {
            bytes[i]
        };
        if bytes[i] == 0x25 && n - i > 2 {
            if let (Some(h), Some(l)) = (hex_val(bytes[i + 1]), hex_val(bytes[i + 2])) {
                b = h * 16 + l;
                step = 3;
            }
        }
        proof {
            assert(rest.skip(step as int) == bytes@.skip(i + step));
            assert(percent_decoded(rest) == seq![b] + percent_decoded(rest.skip(step as int)));
            assert(out@ + percent_decoded(rest) == out@.push(b) + percent_decoded(
                bytes@.skip(i + step),
            ));
        }
        out.push(b);
        i += step;
    }
    assert(bytes@.skip(i as int).len() == 0);
    assert(out@ + Seq::<u8>::empty() == out@);
    out
}

/// A text after one round of percent decoding.
pub fn single_percent_decode(input: &str) -> (r: String)
    ensures
        r@ == decoded_once(input@),
{
    let out: Vec<u8> = percent_decode_bytes(input.as_bytes());
    decode_lossy(out.as_slice())
}

/// A text after all its rounds of percent decoding: the first, and up to two
/// more while each makes the text shorter.
pub fn percent_decode_lossy(input: &str) -> (r: String)
    ensures
        r@ == percent_decoded_text(input@),
{
    let mut result: String = single_percent_decode(input);
    let mut left: usize = 2;
    while left > 0
        invariant
            left <= 2,
            decoded_further(result@, left as nat) == percent_decoded_text(input@),
        decreases left,
    {
        let chars: Vec<char> = chars_of(result.as_str());
        if find_first(chars.as_slice(), '%') == chars.len() {
            return result;
        }
        let next: String = single_percent_decode(result.as_str());
        if next.as_str().as_bytes().len() < result.as_str().as_bytes().len() {
            result = next;
        } else {
            return result;
        }
        left -= 1;
    }
    result
}

/// The value of a hexadecimal digit that is given as a character.
fn digit_val(c: char) -> (r: Option<u8>)
    ensures
        r == digit_value(c),
{
    if '0' <= c && c <= '9' {
        Some((c as u32 - 0x30) as u8)
    } else if 'a' <= c && c <= 'f' {
        Some((c as u32 - 0x61 + 10) as u8)
    } else if 'A' <= c && c <= 'F' {
        Some((c as u32 - 0x41 + 10) as u8)
    } else {
        None
    }
}

proof fn lemma_hex_run(b: Seq<char>, k: int)
    requires
        0 <= k <= b.len(),
        forall|j: int| 0 <= j < k ==> digit_value(b[j]) is Some,
        k < b.len() ==> digit_value(b[k]) is None,
    ensures
        hex_run(b) == k,
    decreases k,
{
    if k > 0 {
        assert(digit_value(b[0]) is Some);
        lemma_hex_run(b.skip(1), k - 1);
    }
}

proof fn lemma_decimal_run(b: Seq<char>, k: int)
    requires
        0 <= k <= b.len(),
        forall|j: int| 0 <= j < k ==> is_decimal(b[j]),
        k < b.len() ==> !is_decimal(b[k]),
    ensures
        decimal_run(b) == k,
    decreases k,
{
    if k > 0 {
        assert(is_decimal(b[0]));
        lemma_decimal_run(b.skip(1), k - 1);
    }
}

proof fn lemma_decimal_run_least(b: Seq<char>, k: int)
    requires
        0 <= k <= b.len(),
        forall|j: int| 0 <= j < k ==> is_decimal(b[j]),
    ensures
        decimal_run(b) >= k,
    decreases k,
{
    if k > 0 {
        assert(is_decimal(b[0]));
        lemma_decimal_run_least(b.skip(1), k - 1);
    }
}

/// The number that the `len` hexadecimal digits from `at` on write, if all are
/// digits; `len` is at most four.
fn hex_digits(chars: &[char], at: usize, len: usize) -> (r: Option<u32>)
    requires
        at + len <= chars@.len(),
        len <= 4,
    ensures
        r is Some <==> hex_run(chars@.subrange(at as int, at + len)) == len,
        r matches Some(v) ==> v == hex_number(chars@.subrange(at as int, at + len)),
        len == 2 ==> (r matches Some(v) ==> v <= 0xff),
{
    let mut v: u32 = 0;
    let mut j: usize = 0;
    let n: usize = chars.len();
    let ghost part = chars@.subrange(at as int, at + len);
    while j < len
        invariant
            j <= len <= 4,
            n == chars@.len(),
            at + len <= n,
            part == chars@.subrange(at as int, at + len),
            v == hex_number(part.take(j as int)),
            forall|i: int| 0 <= i < j ==> digit_value(part[i]) is Some,
            j == 0 ==> v == 0,
            j == 1 ==> v <= 0xf,
            j == 2 ==> v <= 0xff,
            j == 3 ==> v <= 0xfff,
        decreases len - j,
    {
        assert(part[j as int] == chars@[at + j]);
        match digit_val(chars[at + j]) {
            Some(d) => {
                assert(part.take(j + 1).drop_last() == part.take(j as int));
                v = v * 16 + d as u32;
            },
            None => {
                proof {
                    lemma_hex_run(part, j as int);
                }
                return None;
            },
        }
        j += 1;
    }
    proof {
        lemma_hex_run(part, len as int);
        assert(part.take(len as int) == part);
    }
    Some(v)
}

/// The escape `\xHH` or `\uHHHH` at `i`.
fn backslash_escape(chars: &[char], i: usize) -> (r: Option<(char, usize)>)
    requires
        i < chars@.len(),
    ensures
        ({
            let rest = chars@.skip(i as int);
            let e = if byte_escape(rest) is Some {
                byte_escape(rest)
            } else {
                unicode_escape(rest)
            };
            match r {
                Some((c, len)) => e == Some((c, len as nat)),
                None => e is None,
            }
        }),
{
    let n: usize = chars.len();
    let ghost rest = chars@.skip(i as int);
    if chars[i] != '\\' {
        return None;
    }
    if n - i > 3 && to_ascii_lower(chars[i + 1]) == 'x' {
        assert(rest.subrange(2, 4) == chars@.subrange(i + 2, i + 4));
        match hex_digits(chars, i + 2, 2) {
            Some(v) => {
                return Some((v as u8 as char, 4));
            },
            None => {},
        }
    }
    if n - i > 5 && to_ascii_lower(chars[i + 1]) == 'u' {
        assert(rest.subrange(2, 6) == chars@.subrange(i + 2, i + 6));
        match hex_digits(chars, i + 2, 4) {
            Some(v) => {
                match char::from_u32(v) {
                    Some(c) => {
                        return Some((c, 6));
                    },
                    None => {},
                }
            },
            None => {},
        }
    }
    None
}

/// The least number above those of all characters.
const TOO_LARGE: u32 = 0x11_0000;

/// The entity `&#xH..;` at `i`.
fn hex_entity_at(chars: &[char], i: usize) -> (r: Option<(char, usize)>)
    requires
        i < chars@.len(),
    ensures
        match r {
            Some((c, len)) => hex_entity(chars@.skip(i as int)) == Some((c, len as nat)),
            None => hex_entity(chars@.skip(i as int)) is None,
        },
{
    let n: usize = chars.len();
    let ghost rest = chars@.skip(i as int);
    if chars[i] != '&' || n - i <= 3 || chars[i + 1] != '#' || to_ascii_lower(chars[i + 2])
        != 'x' {
        return None;
    }
    let ghost digits = rest.skip(3);
    let mut k: usize = 0;
    let mut val: u32 = 0;
    while k < n - i - 3 && digit_val(chars[i + 3 + k]).is_some()
        invariant
            i + 3 + k <= n == chars@.len(),
            rest == chars@.skip(i as int),
            digits == rest.skip(3),
            forall|j: int| 0 <= j < k ==> digit_value(digits[j]) is Some,
            val <= TOO_LARGE,
            val == if hex_number(digits.take(k as int)) < TOO_LARGE {
                hex_number(digits.take(k as int))
            } else {
                TOO_LARGE as nat
            },
        decreases n - i - k,
    {
        let d: u8 = match digit_val(chars[i + 3 + k]) {
            Some(d) => d,
            None => 0,
        };
        assert(digits.take(k + 1).drop_last() == digits.take(k as int));
        val = if val * 16 + d as u32 >= TOO_LARGE {
            TOO_LARGE
        } else {
            val * 16 + d as u32
        };
        k += 1;
    }
    proof {
        lemma_hex_run(digits, k as int);
        assert(digits.take(k as int) == rest.subrange(3, 3 + k as int));
    }
    if k > 0 && k < n - i - 3 && chars[i + 3 + k] == ';' {
        match char::from_u32(val) {
            Some(c) => Some((c, k + 4)),
            None => None,
        }
    } else {
        None
    }
}

/// The entity `&#D..;` at `i`.
fn decimal_entity_at(chars: &[char], i: usize) -> (r: Option<(char, usize)>)
    requires
        i < chars@.len(),
    ensures
        match r {
            Some((c, len)) => decimal_entity(chars@.skip(i as int)) == Some((c, len as nat)),
            None => decimal_entity(chars@.skip(i as int)) is None,
        },
{
    let n: usize = chars.len();
    let ghost rest = chars@.skip(i as int);
    if chars[i] != '&' || n - i <= 3 || chars[i + 1] != '#' {
        return None;
    }
    let ghost digits = rest.skip(2);
    let mut k: usize = 0;
    let mut val: u32 = 0;
    while k < n - i - 2 && k < 7 && '0' <= chars[i + 2 + k] && chars[i + 2 + k] <= '9'
        invariant
            i + 2 + k <= n == chars@.len(),
            k <= 7,
            rest == chars@.skip(i as int),
            digits == rest.skip(2),
            forall|j: int| 0 <= j < k ==> is_decimal(digits[j]),
            val == decimal_number(digits.take(k as int)),
            k == 0 ==> val == 0,
            k == 1 ==> val < 10,
            k == 2 ==> val < 100,
            k == 3 ==> val < 1000,
            k == 4 ==> val < 10000,
            k == 5 ==> val < 100000,
            k == 6 ==> val < 1000000,
            k == 7 ==> val < 10000000,
        decreases n - i - k,
    {
        assert(digits.take(k + 1).drop_last() == digits.take(k as int));
        val = val * 10 + (chars[i + 2 + k] as u32 - 0x30);
        k += 1;
    }
    proof {
        if k == 7 && k < digits.len() && is_decimal(digits[7]) {
            lemma_decimal_run_least(digits, 8);
        } else {
            lemma_decimal_run(digits, k as int);
        }
        assert(digits.take(k as int) == rest.subrange(2, 2 + k as int));
    }
    if k > 0 && k < n - i - 2 && chars[i + 2 + k] == ';' {
        match char::from_u32(val) {
            Some(c) => Some((c, k + 3)),
            None => None,
        }
    } else {
        None
    }
}

/// The escape at `i`, of whatever kind.
fn escape_at(chars: &[char], i: usize) -> (r: Option<(char, usize)>)
    requires
        i < chars@.len(),
    ensures
        match r {
            Some((c, len)) => escape(chars@.skip(i as int)) == Some((c, len as nat)),
            None => escape(chars@.skip(i as int)) is None,
        },
{
    match backslash_escape(chars, i) {
        Some(e) => {
            return Some(e);
        },
        None => {},
    }
    match hex_entity_at(chars, i) {
        Some(e) => Some(e),
        None => decimal_entity_at(chars, i),
    }
}

/// A text with every escape replaced: `\xHH`, `\uHHHH`, `&#D..;` and
/// `&#xH..;`, whatever the case of the letters. An escape that is incomplete
/// or names no character stays as it is, and so does everything else.
pub fn decode_escapes(input: &str) -> (out: String)
    ensures
        out@ == escapes_decoded(input@),
{
    let all: Vec<char> = chars_of(input);
    let chars: &[char] = all.as_slice();
    let mut out: String = String::new();
    let n: usize = chars.len();
    let mut i: usize = 0;
    assert(chars@.skip(0) == chars@);
    while i < n
        invariant
            i <= n == chars@.len(),
            out@ + escapes_decoded(chars@.skip(i as int)) == escapes_decoded(chars@),
        decreases n - i,
    {
        let ghost rest = chars@.skip(i as int);
        let (c, step): (char, usize) = match escape_at(chars, i) {
            Some(e) => e,
            None => (chars[i], 1),
        };
        proof {
            assert(rest.skip(step as int) == chars@.skip(i + step));
            assert(escapes_decoded(rest) == seq![c] + escapes_decoded(rest.skip(step as int)));
            assert(out@ + escapes_decoded(rest) == out@.push(c) + escapes_decoded(
                chars@.skip(i + step),
            ));
        }
        out.push(c);
        i += step;
    }
    assert(chars@.skip(i as int).len() == 0);
    assert(out@ + Seq::<char>::empty() == out@);
    out
}

/// The hexadecimal digit with the value `d`.
pub open spec fn hex_char(d: int) -> u8 {
    if d < 10 {
        (0x30 + d) as u8
    } else {
        (0x61 + d - 10) as u8
    }
}

/// The bytes with every one of them written as a percent escape.
pub open spec fn percent_encoded(b: Seq<u8>) -> Seq<u8>
    decreases b.len(),
{
    if b.len() == 0 {
        Seq::empty()
    } else {
        seq![0x25u8, hex_char(b[0] as int / 16), hex_char(b[0] as int % 16)] + percent_encoded(
            b.skip(1),
        )
    }
}

/// A text with every byte of it written as a percent escape, `layers` times
/// over.
pub open spec fn percent_encoded_text(s: Seq<char>, layers: nat) -> Seq<char>
    decreases layers,
{
    if layers == 0 {
        s
    } else {
        decode_utf8(
            percent_encoded(encode_utf8(percent_encoded_text(s, (layers - 1) as nat))),
        )
    }
}

/// Percent decoding undoes percent encoding, for all bytes.
pub proof fn law_percent_decoding_undoes_encoding(b: Seq<u8>)
    ensures
        percent_decoded(percent_encoded(b)) == b,
    decreases b.len(),
{
    if b.len() > 0 {
        law_percent_decoding_undoes_encoding(b.skip(1));
        let e = percent_encoded(b);
        assert(e.skip(3) == percent_encoded(b.skip(1)));
        assert(percent_escape(e) == Some(b[0]));
        assert(seq![b[0]] + b.skip(1) == b);
    }
}

/// Bytes without a percent sign and without a plus stay as they are.
pub proof fn law_plain_bytes_stay(b: Seq<u8>)
    requires
        forall|i: int| 0 <= i < b.len() ==> b[i] != 0x25 && b[i] != 0x2b,
    ensures
        percent_decoded(b) == b,
    decreases b.len(),
{
    if b.len() > 0 {
        law_plain_bytes_stay(b.skip(1));
        assert(b[0] != 0x25 && b[0] != 0x2b);
        assert(seq![b[0]] + b.skip(1) == b);
    }
}

/// Percent decoding makes no sequence of bytes longer.
pub proof fn law_percent_decoding_never_lengthens(b: Seq<u8>)
    ensures
        percent_decoded(b).len() <= b.len(),
    decreases b.len(),
{
    if b.len() > 0 {
        if percent_escape(b) is Some {
            law_percent_decoding_never_lengthens(b.skip(3));
        } else {
            law_percent_decoding_never_lengthens(b.skip(1));
        }
    }
}

proof fn lemma_percent_encoded_ascii(b: Seq<u8>)
    ensures
        percent_encoded(b).len() == 3 * b.len(),
        forall|i: int| 0 <= i < percent_encoded(b).len() ==> percent_encoded(b)[i] < 0x80,
        b.len() > 0 ==> percent_encoded(b)[0] == 0x25,
    decreases b.len(),
{
    if b.len() > 0 {
        lemma_percent_encoded_ascii(b.skip(1));
        let tail = percent_encoded(b.skip(1));
        assert forall|i: int| 0 <= i < percent_encoded(b).len() implies percent_encoded(b)[i]
            < 0x80 by {
            if i >= 3 {
                assert(percent_encoded(b)[i] == tail[i - 3]);
            }
        }
    }
}

proof fn lemma_ascii_bytes_are_text(b: Seq<u8>)
    requires
        forall|i: int| 0 <= i < b.len() ==> b[i] < 0x80,
    ensures
        valid_utf8(b),
        decode_utf8(b) == Seq::new(b.len(), |i: int| b[i] as char),
        encode_utf8(decode_utf8(b)) == b,
{
    let chars = Seq::new(b.len(), |i: int| b[i] as char);
    is_ascii_chars_encode_utf8(chars);
    assert(encode_utf8(chars) =~= b);
    encode_utf8_valid_utf8(chars);
    encode_utf8_decode_utf8(chars);
}

proof fn lemma_one_layer(s: Seq<char>)
    ensures
        decoded_once(percent_encoded_text(s, 1)) == s,
        encode_utf8(percent_encoded_text(s, 1)).len() == 3 * encode_utf8(s).len(),
        encode_utf8(s).len() > 0 ==> first_position(percent_encoded_text(s, 1), '%') == 0
            && percent_encoded_text(s, 1).len() > 0,
{
    let b = encode_utf8(s);
    assert(percent_encoded_text(s, 0) == s);
    lemma_percent_encoded_ascii(b);
    lemma_ascii_bytes_are_text(percent_encoded(b));
    law_percent_decoding_undoes_encoding(b);
    encode_utf8_valid_utf8(s);
    encode_utf8_decode_utf8(s);
}

proof fn lemma_layers(s: Seq<char>, n: nat)
    ensures
        percent_encoded_text(s, n + 1) == percent_encoded_text(percent_encoded_text(s, n), 1),
{
    let t = percent_encoded_text(s, n);
    assert(percent_encoded_text(t, 0) == t);
}

/// A text hidden under one, two or three layers of percent encoding comes to
/// light. One that itself holds a percent sign may be decoded further, unless
/// all three rounds are spent.
pub proof fn law_nested_encoding_is_undone(s: Seq<char>, layers: nat)
    requires
        1 <= layers <= 3,
        layers < 3 ==> first_position(s, '%') == s.len(),
    ensures
        percent_decoded_text(percent_encoded_text(s, layers)) == s,
{
    let one = percent_encoded_text(s, 1);
    let two = percent_encoded_text(s, 2);
    let three = percent_encoded_text(s, 3);
    lemma_one_layer(s);
    lemma_layers(s, 1);
    lemma_one_layer(one);
    lemma_layers(s, 2);
    lemma_one_layer(two);
    reveal_with_fuel(decoded_further, 4);
    if s.len() == 0 {
        assert(encode_utf8(s).len() == 0);
        encode_utf8_decode_utf8(one);
        encode_utf8_decode_utf8(two);
        encode_utf8_decode_utf8(s);
        assert(encode_utf8(one) =~= encode_utf8(s));
        assert(encode_utf8(two) =~= encode_utf8(s));
    } else {
        encode_utf8_decode_utf8(s);
        if encode_utf8(s).len() == 0 {
            assert(decode_utf8(encode_utf8(s)).len() == 0);
        }
    }
}

/// Replacing escapes makes no text longer.
pub proof fn law_escape_decoding_never_lengthens(b: Seq<char>)
    ensures
        escapes_decoded(b).len() <= b.len(),
    decreases b.len(),
{
    if b.len() > 0 {
        if escape(b) is Some && 0 < (escape(b)->0).1 <= b.len() {
            law_escape_decoding_never_lengthens(b.skip((escape(b)->0).1 as int));
        } else {
            law_escape_decoding_never_lengthens(b.skip(1));
        }
    }
}

/// A text without a backslash and without an ampersand stays as it is.
pub proof fn law_text_without_escapes_stays(s: Seq<char>)
    requires
        forall|i: int| 0 <= i < s.len() ==> s[i] != '\\' && s[i] != '&',
    ensures
        escapes_decoded(s) == s,
    decreases s.len(),
{
    if s.len() > 0 {
        law_text_without_escapes_stays(s.skip(1));
        assert(s[0] != '\\' && s[0] != '&');
        assert(escape(s) is None);
        assert(escapes_decoded(s) =~= s);
    } else {
        assert(escapes_decoded(s) =~= s);
    }
}

/// The hexadecimal digit with the value `d`, as a character.
pub open spec fn hex_letter(d: int) -> char {
    if d < 10 {
        (0x30 + d) as char
    } else {
        (0x61 + d - 10) as char
    }
}

/// Every byte written as `\xHH` is decoded, whatever follows.
pub proof fn law_byte_escape_is_undone(v: u8, rest: Seq<char>)
    ensures
        escapes_decoded(
            seq!['\\', 'x', hex_letter(v as int / 16), hex_letter(v as int % 16)] + rest,
        ) == seq![v as char] + escapes_decoded(rest),
{
    let e = seq!['\\', 'x', hex_letter(v as int / 16), hex_letter(v as int % 16)] + rest;
    let d = e.subrange(2, 4);
    lemma_hex_run(d, 2);
    reveal_with_fuel(hex_number, 3);
    assert(hex_number(d) == v);
    assert(byte_escape(e) == Some((v as char, 4nat)));
    assert(e.skip(4) == rest);
}

proof fn lemma_four_hex_digits(d: Seq<char>, v: int)
    requires
        0 <= v <= 0xffff,
        d == seq![
            hex_letter(v / 4096),
            hex_letter(v / 256 % 16),
            hex_letter(v / 16 % 16),
            hex_letter(v % 16),
        ],
    ensures
        hex_run(d) == 4,
        hex_number(d) == v,
{
    lemma_hex_run(d, 4);
    let d3 = d.drop_last();
    let d2 = d3.drop_last();
    let d1 = d2.drop_last();
    let d0 = d1.drop_last();
    assert(d0.len() == 0);
    assert(hex_number(d0) == 0);
    assert(digit_value(d1.last()) == Some((v / 4096) as u8));
    assert(hex_number(d1) == v / 4096);
    assert(digit_value(d2.last()) == Some((v / 256 % 16) as u8));
    assert(hex_number(d2) == v / 256);
    assert(digit_value(d3.last()) == Some((v / 16 % 16) as u8));
    assert(hex_number(d3) == v / 16);
    assert(digit_value(d.last()) == Some((v % 16) as u8));
}

/// Every character below U+10000 written as `\uHHHH` is decoded, whatever
/// follows.
pub proof fn law_unicode_escape_is_undone(c: char, rest: Seq<char>)
    requires
        c as u32 <= 0xffff,
    ensures
        ({
            let v = c as int;
            escapes_decoded(
                seq![
                    '\\',
                    'u',
                    hex_letter(v / 4096),
                    hex_letter(v / 256 % 16),
                    hex_letter(v / 16 % 16),
                    hex_letter(v % 16),
                ] + rest,
            )
        }) == seq![c] + escapes_decoded(rest),
{
    let v = c as int;
    let e = seq![
        '\\',
        'u',
        hex_letter(v / 4096),
        hex_letter(v / 256 % 16),
        hex_letter(v / 16 % 16),
        hex_letter(v % 16),
    ] + rest;
    let d = e.subrange(2, 6);
    assert(d =~= seq![
        hex_letter(v / 4096),
        hex_letter(v / 256 % 16),
        hex_letter(v / 16 % 16),
        hex_letter(v % 16),
    ]);
    lemma_four_hex_digits(d, v);
    char_is_scalar(c);
    assert(scalar_char(v as nat) == Some(c));
    assert(e.subrange(2, 4).len() == 2);
    assert(byte_escape(e) is None);
    assert(unicode_escape(e) == Some((c, 6nat)));
    assert(e.skip(6) == rest);
}

proof fn lemma_decimal_digits(n: nat, digits: nat)
    requires
        digits >= 1,
        digits == 1 ==> n < 10,
        digits == 2 ==> n < 100,
        digits == 3 ==> n < 1000,
        digits == 4 ==> n < 10000,
        digits == 5 ==> n < 100000,
        digits == 6 ==> n < 1000000,
        digits == 7 ==> n < 10000000,
        digits <= 7,
    ensures
        decimal_number(decimal(n)) == n,
        1 <= decimal(n).len() <= digits,
        forall|i: int| 0 <= i < decimal(n).len() ==> is_decimal(decimal(n)[i]),
    decreases n,
{
    let b = decimal(n);
    if n < 10 {
        assert(b.drop_last().len() == 0);
        assert(decimal_number(b.drop_last()) == 0);
    } else {
        lemma_decimal_digits(n / 10, (digits - 1) as nat);
        assert(b.drop_last() == decimal(n / 10));
    }
}

/// Every character written as a decimal entity is decoded, whatever follows.
pub proof fn law_decimal_entity_is_undone(c: char, rest: Seq<char>)
    ensures
        escapes_decoded(seq!['&', '#'] + decimal(c as nat) + seq![';'] + rest)
            == seq![c] + escapes_decoded(rest),
{
    let v = c as nat;
    char_is_scalar(c);
    lemma_decimal_digits(v, 7);
    let d = decimal(v);
    let k = d.len() as int;
    let e = seq!['&', '#'] + d + seq![';'] + rest;
    let t = e.skip(2);
    assert forall|j: int| 0 <= j < k implies is_decimal(t[j]) by {
        assert(t[j] == d[j]);
    }
    assert(t[k] == ';');
    lemma_decimal_run(t, k);
    assert(e.subrange(2, 2 + k) == d);
    assert(scalar_char(v) == Some(c));
    assert(e[2] == d[0]);
    assert(is_decimal(e[2]));
    assert(hex_entity(e) is None);
    assert(decimal_entity(e) == Some((c, (k + 3) as nat)));
    assert(e.skip(k + 3) == rest);
}

/// A number in hexadecimal notation.
pub open spec fn hexadecimal(n: nat) -> Seq<char>
    decreases n,
{
    if n < 16 {
        seq![hex_letter(n as int)]
    } else {
        hexadecimal(n / 16).push(hex_letter((n % 16) as int))
    }
}

proof fn lemma_hexadecimal(n: nat)
    ensures
        hex_number(hexadecimal(n)) == n,
        hexadecimal(n).len() >= 1,
        forall|i: int| 0 <= i < hexadecimal(n).len() ==> digit_value(hexadecimal(n)[i]) is Some,
    decreases n,
{
    let b = hexadecimal(n);
    if n < 16 {
        assert(b.drop_last().len() == 0);
        assert(hex_number(b.drop_last()) == 0);
        assert(digit_value(b.last()) == Some(n as u8));
    } else {
        lemma_hexadecimal(n / 16);
        assert(b.drop_last() == hexadecimal(n / 16));
        assert(digit_value(b.last()) == Some((n % 16) as u8));
    }
}

/// Every character written as a hexadecimal entity is decoded, whatever
/// follows.
pub proof fn law_hex_entity_is_undone(c: char, rest: Seq<char>)
    ensures
        escapes_decoded(seq!['&', '#', 'x'] + hexadecimal(c as nat) + seq![';'] + rest) == seq![c]
            + escapes_decoded(rest),
{
    let v = c as nat;
    char_is_scalar(c);
    lemma_hexadecimal(v);
    let d = hexadecimal(v);
    let k = d.len() as int;
    let e = seq!['&', '#', 'x'] + d + seq![';'] + rest;
    let t = e.skip(3);
    assert forall|j: int| 0 <= j < k implies digit_value(t[j]) is Some by {
        assert(t[j] == d[j]);
    }
    assert(t[k] == ';');
    lemma_hex_run(t, k);
    assert(e.subrange(3, 3 + k) == d);
    assert(scalar_char(v) == Some(c));
    assert(hex_entity(e) == Some((c, (k + 4) as nat)));
    assert(e.skip(k + 4) == rest);
}

proof fn lemma_percent_decoded_concat(a: Seq<u8>, b: Seq<u8>)
    requires
        b.len() > 0 ==> hex_value(b[0]) is None,
    ensures
        percent_decoded(a + b) == percent_decoded(a) + percent_decoded(b),
    decreases a.len(),
{
    if a.len() == 0 {
        assert(a + b == b);
    } else {
        assert(percent_escape(a + b) == percent_escape(a));
        if percent_escape(a) is Some {
            assert((a + b).skip(3) == a.skip(3) + b);
            lemma_percent_decoded_concat(a.skip(3), b);
        } else {
            assert((a + b).skip(1) == a.skip(1) + b);
            lemma_percent_decoded_concat(a.skip(1), b);
        }
    }
}

proof fn lemma_encoded_then(p: Seq<u8>, b: Seq<u8>)
    ensures
        percent_decoded(percent_encoded(p) + b) == p + percent_decoded(b),
    decreases p.len(),
{
    if p.len() == 0 {
        assert(percent_encoded(p) + b == b);
        assert(p + percent_decoded(b) == percent_decoded(b));
    } else {
        let e = percent_encoded(p) + b;
        assert(e.skip(3) == percent_encoded(p.skip(1)) + b);
        assert(percent_escape(e) == Some(p[0]));
        lemma_encoded_then(p.skip(1), b);
        assert(seq![p[0]] + (p.skip(1) + percent_decoded(b)) == p + percent_decoded(b));
    }
}

/// A payload that is percent encoded comes to light wherever it stands.
pub proof fn law_encoded_payload_comes_to_light(before: Seq<u8>, payload: Seq<u8>, after: Seq<u8>)
    requires
        payload.len() > 0,
    ensures
        percent_decoded(before + percent_encoded(payload) + after) == percent_decoded(before)
            + payload + percent_decoded(after),
{
    let rest = percent_encoded(payload) + after;
    lemma_percent_encoded_ascii(payload);
    assert(rest[0] == 0x25);
    assert(before + percent_encoded(payload) + after == before + rest);
    lemma_percent_decoded_concat(before, rest);
    lemma_encoded_then(payload, after);
    assert(percent_decoded(before) + (payload + percent_decoded(after)) == percent_decoded(before)
        + payload + percent_decoded(after));
}

proof fn lemma_hex_run_concat(a: Seq<char>, b: Seq<char>)
    requires
        b.len() > 0 ==> digit_value(b[0]) is None,
    ensures
        hex_run(a + b) == hex_run(a),
        hex_run(a) <= a.len(),
        forall|j: int| 0 <= j < hex_run(a) ==> digit_value(a[j]) is Some,
    decreases a.len(),
{
    if a.len() == 0 {
        assert(a + b == b);
    } else {
        assert((a + b).skip(1) == a.skip(1) + b);
        lemma_hex_run_concat(a.skip(1), b);
        assert forall|j: int| 0 <= j < hex_run(a) implies digit_value(a[j]) is Some by {
            if j > 0 {
                assert(a.skip(1)[j - 1] == a[j]);
            }
        }
    }
}

proof fn lemma_decimal_run_concat(a: Seq<char>, b: Seq<char>)
    requires
        b.len() > 0 ==> !is_decimal(b[0]),
    ensures
        decimal_run(a + b) == decimal_run(a),
        decimal_run(a) <= a.len(),
    decreases a.len(),
{
    if a.len() == 0 {
        assert(a + b == b);
    } else {
        assert((a + b).skip(1) == a.skip(1) + b);
        lemma_decimal_run_concat(a.skip(1), b);
    }
}

/// Does an escape start here, or is this the end?
pub open spec fn starts_escape_or_ends(b: Seq<char>) -> bool {
    b.len() > 0 ==> b[0] == '\\' || b[0] == '&'
}

proof fn lemma_hex_group_concat(a: Seq<char>, b: Seq<char>, end: int)
    requires
        starts_escape_or_ends(b),
        2 <= end <= (a + b).len(),
        2 <= a.len() < end,
    ensures
        hex_run((a + b).subrange(2, end)) < end - 2,
{
    let d = (a + b).subrange(2, end);
    let front = a.skip(2);
    let back = d.skip(front.len() as int);
    assert(d == front + back);
    assert(back[0] == b[0]);
    lemma_hex_run_concat(front, back);
}

proof fn lemma_escape_concat(a: Seq<char>, b: Seq<char>)
    requires
        a.len() > 0,
        starts_escape_or_ends(b),
    ensures
        escape(a + b) == escape(a),
        escape(a) matches Some((_, n)) ==> 0 < n <= a.len(),
{
    let ab = a + b;
    assert(byte_escape(ab) == byte_escape(a)) by {
        if a.len() >= 4 {
            assert(ab.subrange(2, 4) == a.subrange(2, 4));
        } else if a.len() >= 2 && ab.len() >= 4 {
            lemma_hex_group_concat(a, b, 4);
        }
    }
    assert(unicode_escape(ab) == unicode_escape(a)) by {
        if a.len() >= 6 {
            assert(ab.subrange(2, 6) == a.subrange(2, 6));
        } else if a.len() >= 2 && ab.len() >= 6 {
            lemma_hex_group_concat(a, b, 6);
        }
    }
    assert(hex_entity(ab) == hex_entity(a) && (hex_entity(a) matches Some((_, n)) ==> 0 < n
        <= a.len())) by {
        if a.len() >= 3 {
            let k = hex_run(a.skip(3));
            assert(ab.skip(3) == a.skip(3) + b);
            lemma_hex_run_concat(a.skip(3), b);
            assert(ab.subrange(3, 3 + k as int) == a.subrange(3, 3 + k as int));
        }
    }
    assert(decimal_entity(ab) == decimal_entity(a) && (decimal_entity(a) matches Some((_, n)) ==> 0
        < n <= a.len())) by {
        if a.len() >= 2 {
            let k = decimal_run(a.skip(2));
            assert(ab.skip(2) == a.skip(2) + b);
            lemma_decimal_run_concat(a.skip(2), b);
            assert(ab.subrange(2, 2 + k as int) == a.subrange(2, 2 + k as int));
        }
    }
}

/// What stands before an escape does not change how the escape is read.
pub proof fn law_escapes_are_read_on_their_own(before: Seq<char>, rest: Seq<char>)
    requires
        starts_escape_or_ends(rest),
    ensures
        escapes_decoded(before + rest) == escapes_decoded(before) + escapes_decoded(rest),
    decreases before.len(),
{
    if before.len() == 0 {
        assert(before + rest == rest);
    } else {
        lemma_escape_concat(before, rest);
        let n = if escape(before) is Some {
            (escape(before)->0).1 as int
        } else {
            1
        };
        assert((before + rest).skip(n) == before.skip(n) + rest);
        law_escapes_are_read_on_their_own(before.skip(n), rest);
    }
}

proof fn lemma_plain_prefix(plain: Seq<char>, rest: Seq<char>)
    requires
        forall|i: int| 0 <= i < plain.len() ==> plain[i] != '\\' && plain[i] != '&',
    ensures
        escapes_decoded(plain + rest) == plain + escapes_decoded(rest),
    decreases plain.len(),
{
    if plain.len() == 0 {
        assert(plain + rest == rest);
        assert(plain + escapes_decoded(rest) == escapes_decoded(rest));
    } else {
        let s = plain + rest;
        assert(s[0] == plain[0]);
        assert(escape(s) is None);
        assert(s.skip(1) == plain.skip(1) + rest);
        lemma_plain_prefix(plain.skip(1), rest);
        assert(seq![plain[0]] + (plain.skip(1) + escapes_decoded(rest)) == plain + escapes_decoded(
            rest,
        ));
    }
}

/// A hexadecimal entity whose number is that of no character stays as it is,
/// however large the number, and whatever follows.
pub proof fn law_entity_of_no_character_stays(n: nat, rest: Seq<char>)
    requires
        scalar_char(n) is None,
    ensures
        ({
            let e = seq!['&', '#', 'x'] + hexadecimal(n) + seq![';'];
            escapes_decoded(e + rest) == e + escapes_decoded(rest)
        }),
{
    lemma_hexadecimal(n);
    let d = hexadecimal(n);
    let k = d.len() as int;
    let e = seq!['&', '#', 'x'] + d + seq![';'];
    let s = e + rest;
    let t = s.skip(3);
    assert forall|j: int| 0 <= j < k implies digit_value(t[j]) is Some by {
        assert(t[j] == d[j]);
    }
    assert(t[k] == ';');
    lemma_hex_run(t, k);
    assert(s.subrange(3, 3 + k) == d);
    assert(s[0] == '&' && s[1] == '#' && s[2] == 'x');
    assert(hex_entity(s) is None);
    assert(!is_decimal(s.skip(2)[0]));
    assert(decimal_entity(s) is None);
    assert(escape(s) is None);
    let plain = e.skip(1);
    assert forall|i: int| 0 <= i < plain.len() implies plain[i] != '\\' && plain[i] != '&' by {
        if 2 <= i < 2 + k {
            assert(plain[i] == d[i - 2]);
            assert(digit_value(d[i - 2]) is Some);
        }
    }
    assert(s.skip(1) == plain + rest);
    lemma_plain_prefix(plain, rest);
    assert(seq!['&'] + (plain + escapes_decoded(rest)) == e + escapes_decoded(rest));
}

/// A text after `k` rounds of percent decoding.
pub open spec fn decoded_times(s: Seq<char>, k: nat) -> Seq<char>
    decreases k,
{
    if k == 0 {
        s
    } else {
        decoded_once(decoded_times(s, (k - 1) as nat))
    }
}

/// The number of bytes that a text takes.
pub open spec fn byte_length(s: Seq<char>) -> nat {
    encode_utf8(s).len()
}

proof fn lemma_narrow_byte(c: u32)
    by (bit_vector)
    requires
        c <= 0x7f,
    ensures
        leading_byte_width_1(c) == c,
{
}

proof fn lemma_wide_bytes(c: u32)
    by (bit_vector)
    ensures
        leading_byte_width_2(c) >= 0x80,
        leading_byte_width_3(c) >= 0x80,
        leading_byte_width_4(c) >= 0x80,
        last_continuation_byte(c) >= 0x80,
        second_last_continuation_byte(c) >= 0x80,
        third_last_continuation_byte(c) >= 0x80,
{
}

/// A character with a plus replaced by a space.
spec fn spaced(c: char) -> char {
    if c == '+' {
        ' '
    } else {
        c
    }
}

proof fn lemma_scalar_bytes(c: char)
    ensures
        c != '%' ==> forall|i: int|
            0 <= i < encode_scalar(c as u32).len() ==> (#[trigger] encode_scalar(c as u32)[i])
                != 0x25,
        encode_scalar(spaced(c) as u32) == encode_scalar(c as u32).map_values(
            |b: u8| plus_as_space(b),
        ),
{
    let v = c as u32;
    lemma_wide_bytes(v);
    if v <= 0x7f {
        lemma_narrow_byte(v);
        lemma_narrow_byte(0x20);
        lemma_narrow_byte(0x2b);
    }
    assert(encode_scalar(spaced(c) as u32) =~= encode_scalar(v).map_values(
        |b: u8| plus_as_space(b),
    ));
}

proof fn lemma_no_percent_sign(s: Seq<char>)
    requires
        forall|i: int| 0 <= i < s.len() ==> s[i] != '%',
    ensures
        forall|i: int| 0 <= i < encode_utf8(s).len() ==> encode_utf8(s)[i] != 0x25,
        encode_utf8(s.map_values(|c: char| spaced(c))) == encode_utf8(s).map_values(
            |b: u8| plus_as_space(b),
        ),
    decreases s.len(),
{
    let t = s.map_values(|c: char| spaced(c));
    let b = encode_utf8(s);
    if s.len() > 0 {
        let rest = s.drop_first();
        lemma_no_percent_sign(rest);
        lemma_scalar_bytes(s[0]);
        assert(t.drop_first() =~= rest.map_values(|c: char| spaced(c)));
        let first = encode_scalar(s[0] as u32);
        let tail = encode_utf8(rest);
        assert(b == first + tail);
        assert forall|i: int| 0 <= i < b.len() implies b[i] != 0x25 by {
            if i < first.len() {
                assert(b[i] == first[i]);
            } else {
                assert(b[i] == tail[i - first.len()]);
            }
        }
        assert(encode_utf8(t) =~= b.map_values(|b: u8| plus_as_space(b)));
    } else {
        assert(encode_utf8(t) =~= b.map_values(|b: u8| plus_as_space(b)));
    }
}

proof fn lemma_plusses_decoded(b: Seq<u8>)
    requires
        forall|i: int| 0 <= i < b.len() ==> b[i] != 0x25,
    ensures
        percent_decoded(b) == b.map_values(|x: u8| plus_as_space(x)),
    decreases b.len(),
{
    let m = b.map_values(|x: u8| plus_as_space(x));
    if b.len() > 0 {
        assert(b[0] != 0x25);
        lemma_plusses_decoded(b.skip(1));
        assert(seq![plus_as_space(b[0])] + b.skip(1).map_values(|x: u8| plus_as_space(x)) =~= m);
    } else {
        assert(percent_decoded(b) =~= m);
    }
}

proof fn lemma_length_without_percent(s: Seq<char>)
    requires
        first_position(s, '%') >= s.len(),
    ensures
        byte_length(decoded_once(s)) == byte_length(s),
{
    lemma_first_position_bound(s, '%');
    lemma_no_percent_sign(s);
    let b = encode_utf8(s);
    lemma_plusses_decoded(b);
    let t = s.map_values(|c: char| spaced(c));
    encode_utf8_valid_utf8(t);
    encode_utf8_decode_utf8(t);
}

/// Percent decoding makes one to three rounds: each after the first makes the
/// text shorter, and where fewer than three are made the next would not. So the
/// result is no longer than one round leaves it.
pub proof fn law_rounds_are_kept_while_they_shorten(s: Seq<char>)
    ensures
        exists|k: nat|
            {
                &&& 1 <= k <= 3
                &&& percent_decoded_text(s) == #[trigger] decoded_times(s, k)
                &&& forall|j: nat|
                    1 <= j < k ==> byte_length(decoded_times(s, j + 1)) < byte_length(
                        #[trigger] decoded_times(s, j),
                    )
                &&& k < 3 ==> byte_length(decoded_once(percent_decoded_text(s))) >= byte_length(
                    percent_decoded_text(s),
                )
            },
        byte_length(percent_decoded_text(s)) <= byte_length(decoded_once(s)),
{
    let one = decoded_once(s);
    let two = decoded_once(one);
    let three = decoded_once(two);
    let end = percent_decoded_text(s);
    reveal_with_fuel(decoded_further, 3);
    assert(decoded_times(s, 0) == s);
    assert(decoded_times(s, 1) == one);
    assert(decoded_times(s, 2) == two);
    assert(decoded_times(s, 3) == three);
    if first_position(one, '%') >= one.len() {
        lemma_length_without_percent(one);
    }
    if first_position(two, '%') >= two.len() {
        lemma_length_without_percent(two);
    }
    let k: nat = if first_position(one, '%') >= one.len() || byte_length(two) >= byte_length(one) {
        1
    } else if first_position(two, '%') >= two.len() || byte_length(three) >= byte_length(two) {
        2
    } else {
        3
    };
    assert(end == decoded_times(s, k));
    assert forall|j: nat| 1 <= j < k implies byte_length(decoded_times(s, j + 1)) < byte_length(
        #[trigger] decoded_times(s, j),
    ) by {
        assert(j == 1 || j == 2);
    }
}

} // verus!
