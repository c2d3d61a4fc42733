//! Text as sequences of characters: searching, trimming, splitting and
//! joining, with ASCII case folding where HTTP asks for it.

use vstd::prelude::*;
use vstd::slice::*;
use vstd::string::*;
use vstd::utf8::*;

verus! {

/// `String::push`: the character is appended and nothing else changes.
pub assume_specification[ String::push ](s: &mut String, c: char)
    ensures
        final(s)@ == old(s)@.push(c),
;

/// `char::from_u32`: every Unicode scalar value is a character, and no other
/// number is.
pub assume_specification[ char::from_u32 ](v: u32) -> (c: Option<char>)
    ensures
        c == (if is_scalar(v) {
            Some(v as char)
        } else {
            None
        }),
;

/// The text that `String::from_utf8_lossy` makes of bytes that are not UTF-8.
pub uninterp spec fn lossy_text(bytes: Seq<u8>) -> Seq<char>;

/// The text of some bytes: UTF-8 is decoded as it stands, and in other input
/// replacement characters stand for what cannot be decoded.
pub open spec fn utf8_text(bytes: Seq<u8>) -> Seq<char> {
    if valid_utf8(bytes) {
        decode_utf8(bytes)
    } else {
        lossy_text(bytes)
    }
}

/// `String::from_utf8_lossy`: valid UTF-8 is decoded as it stands; where
/// replacement characters go in other input is only named.
#[verifier::external_body]
pub(crate) fn decode_lossy(bytes: &[u8]) -> (r: String)
    ensures
        r@ == utf8_text(bytes@),
        !valid_utf8(bytes@) ==> r@ == lossy_text(bytes@),
{
    String::from_utf8_lossy(bytes).into_owned()
}

/// The text that `str::to_lowercase` makes of some text.
pub uninterp spec fn lowercase_text(s: Seq<char>) -> Seq<char>;

/// `str::to_lowercase`: the Unicode lower case of the text, named.
#[verifier::external_body]
pub(crate) fn lowercase(s: &str) -> (r: String)
    ensures
        r@ == lowercase_text(s@),
{
    s.to_lowercase()
}

/// The ASCII lower case of a character.
pub open spec fn ascii_lower(c: char) -> char {
    if 'A' <= c <= 'Z' {
        (c as u32 + 32) as char
    } else {
        c
    }
}

/// The text with every ASCII letter in lower case.
pub open spec fn ascii_lower_text(s: Seq<char>) -> Seq<char> {
    s.map_values(|c: char| ascii_lower(c))
}

/// The two texts differ at most in the case of ASCII letters.
pub open spec fn same_ignoring_case(a: Seq<char>, b: Seq<char>) -> bool {
    ascii_lower_text(a) == ascii_lower_text(b)
}

/// The Unicode property White_Space.
pub open spec fn is_space(c: char) -> bool {
    let v = c as u32;
    ||| 0x09 <= v <= 0x0d
    ||| v == 0x20
    ||| v == 0x85
    ||| v == 0xa0
    ||| v == 0x1680
    ||| 0x2000 <= v <= 0x200a
    ||| v == 0x2028
    ||| v == 0x2029
    ||| v == 0x202f
    ||| v == 0x205f
    ||| v == 0x3000
}

/// `needle` stands in `hay` at position `at`.
pub open spec fn occurs_at(hay: Seq<char>, needle: Seq<char>, at: int) -> bool {
    &&& 0 <= at
    &&& at + needle.len() <= hay.len()
    &&& hay.subrange(at, at + needle.len()) == needle
}

/// `needle` stands somewhere in `hay`.
pub open spec fn occurs(hay: Seq<char>, needle: Seq<char>) -> bool {
    exists|at: int| #[trigger] occurs_at(hay, needle, at)
}

/// `needle` stands somewhere in `hay`, whatever the case of ASCII letters.
pub open spec fn occurs_ignoring_case(hay: Seq<char>, needle: Seq<char>) -> bool {
    occurs(ascii_lower_text(hay), ascii_lower_text(needle))
}

/// The position of the first `c`, or the length if there is none.
pub open spec fn first_position(s: Seq<char>, c: char) -> nat
    decreases s.len(),
{
    if s.len() == 0 || s[0] == c {
        0
    } else {
        1 + first_position(s.drop_first(), c)
    }
}

/// The position of the last `c`, or -1 if there is none.
pub open spec fn last_position(s: Seq<char>, c: char) -> int
    decreases s.len(),
{
    if s.len() == 0 {
        -1
    } else if s.last() == c {
        s.len() - 1
    } else {
        last_position(s.drop_last(), c)
    }
}

/// What stands before and after the first `c`.
pub open spec fn split_at_first(s: Seq<char>, c: char) -> Option<(Seq<char>, Seq<char>)> {
    let k = first_position(s, c);
    if k < s.len() {
        Some((s.take(k as int), s.skip((k + 1) as int)))
    } else {
        None
    }
}

/// The number of white space characters at the start.
pub open spec fn leading_spaces(s: Seq<char>) -> nat
    decreases s.len(),
{
    if s.len() > 0 && is_space(s[0]) {
        1 + leading_spaces(s.drop_first())
    } else {
        0
    }
}

/// The number of white space characters at the end.
pub open spec fn trailing_spaces(s: Seq<char>) -> nat
    decreases s.len(),
{
    if s.len() > 0 && is_space(s.last()) {
        1 + trailing_spaces(s.drop_last())
    } else {
        0
    }
}

/// The text without the white space at both ends.
pub open spec fn trimmed(s: Seq<char>) -> Seq<char> {
    let t = s.skip(leading_spaces(s) as int);
    t.take(t.len() - trailing_spaces(t))
}

/// The length of the first word of a text that starts with one.
pub open spec fn word_length(s: Seq<char>) -> nat
    decreases s.len(),
{
    if s.len() > 0 && !is_space(s[0]) {
        1 + word_length(s.drop_first())
    } else {
        0
    }
}

/// The words of a text: its longest runs without white space, in order.
pub open spec fn words(s: Seq<char>) -> Seq<Seq<char>>
    decreases s.len(),
{
    let t = s.skip(leading_spaces(s) as int);
    let k = word_length(t);
    if leading_spaces(s) > s.len() || t.len() == 0 || k == 0 || k > t.len() {
        Seq::empty()
    } else {
        seq![t.take(k as int)] + words(t.skip(k as int))
    }
}

/// A line without the carriage return that ends it, if there is one.
pub open spec fn without_cr(s: Seq<char>) -> Seq<char> {
    if s.len() > 0 && s.last() == '\r' {
        s.drop_last()
    } else {
        s
    }
}

/// The lines of a text: each ends in a line feed, which a carriage return may
/// precede, or at the end of the text.
pub open spec fn text_lines(s: Seq<char>) -> Seq<Seq<char>>
    decreases s.len(),
{
    let k = first_position(s, '\n');
    if s.len() == 0 {
        Seq::empty()
    } else if k >= s.len() {
        seq![s]
    } else {
        seq![without_cr(s.take(k as int))] + text_lines(s.skip((k + 1) as int))
    }
}

/// The texts, one after the other, with `sep` between two.
pub open spec fn joined(parts: Seq<Seq<char>>, sep: Seq<char>) -> Seq<char>
    decreases parts.len(),
{
    if parts.len() == 0 {
        Seq::empty()
    } else if parts.len() == 1 {
        parts[0]
    } else {
        joined(parts.drop_last(), sep) + sep + parts.last()
    }
}

/// The first `n` characters, or all if there are fewer.
pub open spec fn at_most(s: Seq<char>, n: nat) -> Seq<char> {
    if s.len() <= n {
        s
    } else {
        s.take(n as int)
    }
}

/// The decimal digit with the value `d`.
pub open spec fn digit(d: int) -> char {
    (48 + d) as char
}

/// A number in decimal notation.
pub open spec fn decimal(n: nat) -> Seq<char>
    decreases n,
{
    if n < 10 {
        seq![digit(n as int)]
    } else {
        decimal(n / 10).push(digit((n % 10) as int))
    }
}

/// The views of some strings.
pub open spec fn texts(v: Seq<String>) -> Seq<Seq<char>> {
    Seq::new(v.len(), |i: int| v[i]@)
}

pub proof fn lemma_first_position(s: Seq<char>, c: char, k: int)
    requires
        0 <= k <= s.len(),
        forall|j: int| 0 <= j < k ==> s[j] != c,
        k < s.len() ==> s[k] == c,
    ensures
        first_position(s, c) == k,
    decreases k,
{
    if k > 0 {
        assert(s[0] != c);
        lemma_first_position(s.drop_first(), c, k - 1);
    }
}

pub proof fn lemma_first_position_bound(s: Seq<char>, c: char)
    ensures
        first_position(s, c) <= s.len(),
        first_position(s, c) < s.len() ==> s[first_position(s, c) as int] == c,
        forall|j: int| 0 <= j < first_position(s, c) ==> s[j] != c,
    decreases s.len(),
{
    if s.len() > 0 && s[0] != c {
        let t = s.drop_first();
        lemma_first_position_bound(t, c);
        assert forall|j: int| 0 <= j < first_position(s, c) implies s[j] != c by {
            if j > 0 {
                assert(t[j - 1] != c);
            }
        }
    }
}

pub proof fn lemma_last_position(s: Seq<char>, c: char, k: int)
    requires
        -1 <= k < s.len(),
        forall|j: int| k < j < s.len() ==> s[j] != c,
        k >= 0 ==> s[k] == c,
    ensures
        last_position(s, c) == k,
    decreases s.len(),
{
    if s.len() > 0 && k < s.len() - 1 {
        assert(s.last() != c);
        lemma_last_position(s.drop_last(), c, k);
    }
}

pub proof fn lemma_leading_spaces(s: Seq<char>, k: int)
    requires
        0 <= k <= s.len(),
        forall|j: int| 0 <= j < k ==> is_space(s[j]),
        k < s.len() ==> !is_space(s[k]),
    ensures
        leading_spaces(s) == k,
    decreases k,
{
    if k > 0 {
        assert(is_space(s[0]));
        lemma_leading_spaces(s.drop_first(), k - 1);
    }
}

pub proof fn lemma_leading_spaces_bound(s: Seq<char>)
    ensures
        leading_spaces(s) <= s.len(),
        leading_spaces(s) < s.len() ==> !is_space(s[leading_spaces(s) as int]),
    decreases s.len(),
{
    if s.len() > 0 && is_space(s[0]) {
        lemma_leading_spaces_bound(s.drop_first());
    }
}

pub proof fn lemma_trailing_spaces(s: Seq<char>, k: int)
    requires
        0 <= k <= s.len(),
        forall|j: int| k <= j < s.len() ==> is_space(s[j]),
        k > 0 ==> !is_space(s[k - 1]),
    ensures
        trailing_spaces(s) == s.len() - k,
    decreases s.len(),
{
    if k < s.len() {
        assert(is_space(s.last()));
        lemma_trailing_spaces(s.drop_last(), k);
    }
}

pub proof fn lemma_word_length(s: Seq<char>, k: int)
    requires
        0 <= k <= s.len(),
        forall|j: int| 0 <= j < k ==> !is_space(s[j]),
        k < s.len() ==> is_space(s[k]),
    ensures
        word_length(s) == k,
    decreases k,
{
    if k > 0 {
        assert(!is_space(s[0]));
        lemma_word_length(s.drop_first(), k - 1);
    }
}

/// The characters of a string.
pub fn chars_of(s: &str) -> (v: Vec<char>)
    ensures
        v@ == s@,
{
    let mut v: Vec<char> = Vec::new();
    for c in it: s.chars()
        invariant
            v@ == s@.take(it.index()),
            it.seq() == s@,
    {
        v.push(c);
    }
    v
}

/// The string of some characters.
pub fn text_of(v: &[char]) -> (s: String)
    ensures
        s@ == v@,
{
    let mut s: String = String::new();
    let mut i: usize = 0;
    while i < v.len()
        invariant
            i <= v@.len(),
            s@ == v@.take(i as int),
        decreases v@.len() - i,
    {
        s.push(v[i]);
        i += 1;
        assert(v@.take(i as int) == v@.take(i - 1).push(v@[i - 1]));
    }
    assert(v@.take(i as int) == v@);
    s
}

/// Are the two texts the same?
pub fn same_text(a: &str, b: &str) -> (r: bool)
    ensures
        r == (a@ == b@),
{
    broadcast use encode_utf8_decode_utf8;

    let x: &[u8] = a.as_bytes();
    let y: &[u8] = b.as_bytes();
    assert(a@ != b@ ==> x@ != y@) by {
        assert(decode_utf8(x@) == a@);
        assert(decode_utf8(y@) == b@);
    }
    if x.len() != y.len() {
        return false;
    }
    let mut i: usize = 0;
    while i < x.len()
        invariant
            i <= x@.len() == y@.len(),
            forall|j: int| 0 <= j < i ==> x@[j] == y@[j],
            x@ == encode_utf8(a@),
            y@ == encode_utf8(b@),
        decreases x@.len() - i,
    {
        if x[i] != y[i] {
            return false;
        }
        i += 1;
    }
    assert(x@ == y@);
    true
}

/// The ASCII lower case of a character.
pub fn to_ascii_lower(c: char) -> (r: char)
    ensures
        r == ascii_lower(c),
{
    if 'A' <= c && c <= 'Z' {
        let b: u8 = c as u8 + 32;
        b as char
    } else {
        c
    }
}

/// The characters of a text, with every ASCII letter in lower case.
pub fn ascii_lower_chars(v: &[char]) -> (r: Vec<char>)
    ensures
        r@ == ascii_lower_text(v@),
{
    let mut r: Vec<char> = Vec::new();
    let mut i: usize = 0;
    while i < v.len()
        invariant
            i <= v@.len(),
            r@ == ascii_lower_text(v@.take(i as int)),
        decreases v@.len() - i,
    {
        r.push(to_ascii_lower(v[i]));
        i += 1;
        assert(v@.take(i as int) == v@.take(i - 1).push(v@[i - 1]));
        assert(r@ == ascii_lower_text(v@.take(i as int)));
    }
    assert(v@.take(i as int) == v@);
    r
}

/// Do the two texts differ at most in the case of ASCII letters?
pub fn eq_ignore_case(a: &[char], b: &[char]) -> (r: bool)
    ensures
        r == same_ignoring_case(a@, b@),
{
    let ghost x = ascii_lower_text(a@);
    let ghost y = ascii_lower_text(b@);
    if a.len() != b.len() {
        assert(x.len() != y.len());
        return false;
    }
    let mut i: usize = 0;
    while i < a.len()
        invariant
            i <= a@.len() == b@.len(),
            x == ascii_lower_text(a@),
            y == ascii_lower_text(b@),
            forall|j: int| 0 <= j < i ==> x[j] == y[j],
        decreases a@.len() - i,
    {
        if to_ascii_lower(a[i]) != to_ascii_lower(b[i]) {
            assert(x[i as int] != y[i as int]);
            return false;
        }
        i += 1;
    }
    assert(x == y);
    true
}

/// Is the character white space?
pub fn is_white_space(c: char) -> (r: bool)
    ensures
        r == is_space(c),
{
    let v: u32 = c as u32;
    (0x09 <= v && v <= 0x0d) || v == 0x20 || v == 0x85 || v == 0xa0 || v == 0x1680 || (0x2000 <= v
        && v <= 0x200a) || v == 0x2028 || v == 0x2029 || v == 0x202f || v == 0x205f || v == 0x3000
}

/// Does `needle` stand in `hay` at `at`?
pub fn stands_at(hay: &[char], needle: &[char], at: usize) -> (r: bool)
    ensures
        r == occurs_at(hay@, needle@, at as int),
{
    let n: usize = hay.len();
    if needle.len() > n || at > n - needle.len() {
        return false;
    }
    let mut i: usize = 0;
    while i < needle.len()
        invariant
            i <= needle@.len(),
            n == hay@.len(),
            at + needle@.len() <= n,
            forall|j: int| 0 <= j < i ==> hay@[at + j] == needle@[j],
        decreases needle@.len() - i,
    {
        if hay[at + i] != needle[i] {
            assert(hay@.subrange(at as int, at + needle@.len())[i as int] != needle@[i as int]);
            return false;
        }
        i += 1;
    }
    assert(hay@.subrange(at as int, at + needle@.len()) == needle@);
    true
}

/// Does `needle` stand somewhere in `hay`?
pub fn contains(hay: &[char], needle: &[char]) -> (r: bool)
    ensures
        r == occurs(hay@, needle@),
{
    let mut at: usize = 0;
    while at < hay.len()
        invariant
            at <= hay@.len(),
            forall|k: int| 0 <= k < at ==> !occurs_at(hay@, needle@, k),
        decreases hay@.len() - at,
    {
        if stands_at(hay, needle, at) {
            return true;
        }
        at += 1;
    }
    stands_at(hay, needle, at)
}

/// Does the text start with `prefix`?
pub fn has_prefix(s: &[char], prefix: &[char]) -> (r: bool)
    ensures
        r == occurs_at(s@, prefix@, 0),
{
    stands_at(s, prefix, 0)
}

/// The position of the first `c`, or the length if there is none.
pub fn find_first(s: &[char], c: char) -> (k: usize)
    ensures
        k == first_position(s@, c),
        k <= s@.len(),
{
    let mut k: usize = 0;
    while k < s.len() && s[k] != c
        invariant
            k <= s@.len(),
            forall|j: int| 0 <= j < k ==> s@[j] != c,
        decreases s@.len() - k,
    {
        k += 1;
    }
    proof {
        lemma_first_position(s@, c, k as int);
    }
    k
}

/// The position of the last `c`.
pub fn find_last(s: &[char], c: char) -> (r: Option<usize>)
    ensures
        match r {
            Some(k) => k == last_position(s@, c) && k < s@.len(),
            None => last_position(s@, c) == -1,
        },
{
    let mut k: usize = s.len();
    while k > 0
        invariant
            k <= s@.len(),
            forall|j: int| k <= j < s@.len() ==> s@[j] != c,
        decreases k,
    {
        if s[k - 1] == c {
            proof {
                lemma_last_position(s@, c, k - 1);
            }
            return Some(k - 1);
        }
        k -= 1;
    }
    proof {
        lemma_last_position(s@, c, -1);
    }
    None
}

/// What stands before and after the first `c`.
pub fn split_once(s: &[char], c: char) -> (r: Option<(&[char], &[char])>)
    ensures
        match r {
            Some((a, b)) => split_at_first(s@, c) == Some((a@, b@)),
            None => split_at_first(s@, c) is None,
        },
{
    let k: usize = find_first(s, c);
    if k < s.len() {
        let a: &[char] = slice_subrange(s, 0, k);
        let b: &[char] = slice_subrange(s, k + 1, s.len());
        assert(a@ == s@.take(k as int));
        assert(b@ == s@.skip(k + 1));
        Some((a, b))
    } else {
        None
    }
}

/// The text without the white space at both ends.
pub fn trim(s: &[char]) -> (r: &[char])
    ensures
        r@ == trimmed(s@),
{
    let mut a: usize = 0;
    while a < s.len() && is_white_space(s[a])
        invariant
            a <= s@.len(),
            forall|j: int| 0 <= j < a ==> is_space(s@[j]),
        decreases s@.len() - a,
    {
        a += 1;
    }
    proof {
        lemma_leading_spaces(s@, a as int);
    }
    let mut b: usize = s.len();
    while b > a && is_white_space(s[b - 1])
        invariant
            a <= b <= s@.len(),
            forall|j: int| b <= j < s@.len() ==> is_space(s@[j]),
        decreases b,
    {
        b -= 1;
    }
    let r: &[char] = slice_subrange(s, a, b);
    proof {
        let t = s@.skip(a as int);
        lemma_trailing_spaces(t, b - a);
        assert(r@ == t.take(b - a));
    }
    r
}

/// The words of a text.
pub fn split_words(s: &[char]) -> (r: Vec<&[char]>)
    ensures
        r@.len() == words(s@).len(),
        forall|i: int| 0 <= i < r@.len() ==> r@[i]@ == words(s@)[i],
{
    let mut r: Vec<&[char]> = Vec::new();
    let mut at: usize = 0;
    assert(s@.skip(0) == s@);
    loop
        invariant
            at <= s@.len(),
            words(s@).len() == r@.len() + words(s@.skip(at as int)).len(),
            forall|i: int| 0 <= i < r@.len() ==> r@[i]@ == words(s@)[i],
            forall|i: int|
                0 <= i < words(s@.skip(at as int)).len() ==> words(s@.skip(at as int))[i] == words(
                    s@,
                )[r@.len() + i],
        decreases s@.len() - at,
    {
        let ghost rest = s@.skip(at as int);
        let mut a: usize = at;
        while a < s.len() && is_white_space(s[a])
            invariant
                at <= a <= s@.len(),
                forall|j: int| at <= j < a ==> is_space(s@[j]),
            decreases s@.len() - a,
        {
            a += 1;
        }
        proof {
            lemma_leading_spaces(rest, a - at);
            assert(rest.skip(a - at) == s@.skip(a as int));
        }
        if a == s.len() {
            return r;
        }
        let mut b: usize = a;
        while b < s.len() && !is_white_space(s[b])
            invariant
                a <= b <= s@.len(),
                forall|j: int| a <= j < b ==> !is_space(s@[j]),
            decreases s@.len() - b,
        {
            b += 1;
        }
        let w: &[char] = slice_subrange(s, a, b);
        proof {
            let t = s@.skip(a as int);
            lemma_word_length(t, b - a);
            assert(t.take(b - a) == w@);
            assert(t.skip(b - a) == s@.skip(b as int));
            assert(words(rest) == seq![w@] + words(s@.skip(b as int)));
            assert forall|i: int| 0 <= i < words(s@.skip(b as int)).len() implies words(
                s@.skip(b as int),
            )[i] == words(s@)[r@.len() + 1 + i] by {
                assert(words(rest)[i + 1] == words(s@.skip(b as int))[i]);
            }
            assert(words(rest)[0] == w@);
        }
        r.push(w);
        at = b;
    }
}

/// The lines of a text.
pub fn split_lines(s: &[char]) -> (r: Vec<&[char]>)
    ensures
        r@.len() == text_lines(s@).len(),
        forall|i: int| 0 <= i < r@.len() ==> r@[i]@ == text_lines(s@)[i],
{
    let mut r: Vec<&[char]> = Vec::new();
    let mut at: usize = 0;
    assert(s@.skip(0) == s@);
    while at < s.len()
        invariant
            at <= s@.len(),
            text_lines(s@).len() == r@.len() + text_lines(s@.skip(at as int)).len(),
            forall|i: int| 0 <= i < r@.len() ==> r@[i]@ == text_lines(s@)[i],
            forall|i: int|
                0 <= i < text_lines(s@.skip(at as int)).len() ==> text_lines(
                    s@.skip(at as int),
                )[i] == text_lines(s@)[r@.len() + i],
        decreases s@.len() - at,
    {
        let rest: &[char] = slice_subrange(s, at, s.len());
        assert(rest@ == s@.skip(at as int));
        let k: usize = find_first(rest, '\n');
        if k == rest.len() {
            assert(text_lines(rest@)[0] == rest@);
            r.push(rest);
            at = s.len();
            assert(s@.skip(at as int).len() == 0);
        } else {
            let mut end: usize = k;
            if end > 0 && rest[end - 1] == '\r' {
                end -= 1;
            }
            let line: &[char] = slice_subrange(rest, 0, end);
            let ghost tail = rest@.skip(k + 1);
            proof {
                assert(line@ == without_cr(rest@.take(k as int)));
                assert(text_lines(rest@) == seq![line@] + text_lines(tail));
                assert(tail == s@.skip(at + k + 1));
                assert(text_lines(rest@)[0] == line@);
                assert forall|i: int| 0 <= i < text_lines(tail).len() implies text_lines(tail)[i]
                    == text_lines(s@)[r@.len() + 1 + i] by {
                    assert(text_lines(rest@)[i + 1] == text_lines(tail)[i]);
                }
            }
            r.push(line);
            at = at + k + 1;
        }
    }
    assert(s@.skip(at as int).len() == 0);
    r
}

/// The texts, one after the other, with `sep` between two.
pub fn join(parts: &Vec<String>, sep: &str) -> (r: String)
    ensures
        r@ == joined(texts(parts@), sep@),
{
    let mut r: String = String::new();
    let ghost all = texts(parts@);
    let mut i: usize = 0;
    while i < parts.len()
        invariant
            i <= parts@.len(),
            all == texts(parts@),
            r@ == joined(all.take(i as int), sep@),
        decreases parts@.len() - i,
    {
        proof {
            assert(all.take(i + 1).drop_last() == all.take(i as int));
            assert(all.take(i + 1).last() == parts@[i as int]@);
        }
        if i > 0 {
            r.append(sep);
        }
        r.append(parts[i].as_str());
        i += 1;
        assert(r@ == joined(all.take(i as int), sep@));
    }
    assert(all.take(i as int) == all);
    r
}

/// The first `n` characters, or all if there are fewer.
pub fn head(s: &str, n: usize) -> (r: String)
    ensures
        r@ == at_most(s@, n as nat),
{
    let v: Vec<char> = chars_of(s);
    if v.len() <= n {
        text_of(v.as_slice())
    } else {
        let h: &[char] = slice_subrange(v.as_slice(), 0, n);
        assert(h@ == s@.take(n as int));
        text_of(h)
    }
}

/// A number in decimal notation.
pub fn decimal_of(n: u64) -> (r: String)
    ensures
        r@ == decimal(n as nat),
    decreases n,
{
    let d: char = (48 + (n % 10) as u8) as char;
    let mut r: String = if n < 10 {
        String::new()
    } else {
        decimal_of(n / 10)
    };
    r.push(d);
    assert(r@ == decimal(n as nat));
    r
}

/// The text without the characters `c` at its end.
pub open spec fn without_trailing(s: Seq<char>, c: char) -> Seq<char>
    decreases s.len(),
{
    if s.len() > 0 && s.last() == c {
        without_trailing(s.drop_last(), c)
    } else {
        s
    }
}

/// The text without the characters `c` at its end.
pub fn trim_end_char(s: &str, c: char) -> (r: String)
    ensures
        r@ == without_trailing(s@, c),
{
    let v = chars_of(s);
    let mut n: usize = v.len();
    assert(s@.take(n as int) =~= s@);
    while n > 0 && v[n - 1] == c
        invariant
            n <= v@.len(),
            v@ == s@,
            without_trailing(s@.take(n as int), c) == without_trailing(s@, c),
        decreases n,
    {
        assert(s@.take(n as int).drop_last() =~= s@.take(n - 1));
        n -= 1;
    }
    let r = text_of(slice_subrange(v.as_slice(), 0, n));
    assert(r@ =~= s@.take(n as int));
    r
}

/// The pieces of a text between the characters `c`.
pub open spec fn pieces(s: Seq<char>, c: char) -> Seq<Seq<char>>
    decreases s.len(),
    via pieces_decreases
{
    let k = first_position(s, c);
    if k >= s.len() {
        seq![s]
    } else {
        seq![s.take(k as int)] + pieces(s.skip((k + 1) as int), c)
    }
}

#[via_fn]
proof fn pieces_decreases(s: Seq<char>, c: char) {
    lemma_first_position_bound(s, c);
}

/// The pieces of a text between the characters `c`.
pub fn split_pieces(s: &[char], c: char) -> (r: Vec<&[char]>)
    ensures
        r@.len() == pieces(s@, c).len(),
        forall|i: int| 0 <= i < r@.len() ==> r@[i]@ == pieces(s@, c)[i],
{
    let mut r: Vec<&[char]> = Vec::new();
    let mut rest: &[char] = s;
    let ghost all = pieces(s@, c);
    assert(all =~= Seq::<Seq<char>>::empty() + all);
    loop
        invariant
            all == pieces(s@, c),
            all == all.take(r@.len() as int) + pieces(rest@, c),
            r@.len() <= all.len(),
            forall|i: int| 0 <= i < r@.len() ==> r@[i]@ == all[i],
        decreases rest@.len(),
    {
        let k: usize = find_first(rest, c);
        let n: usize = rest.len();
        if k >= n {
            r.push(rest);
            assert(all[r@.len() - 1] == pieces(rest@, c)[0]);
            return r;
        }
        let ghost before = rest@;
        let ghost done = r@.len() as int;
        r.push(slice_subrange(rest, 0, k));
        rest = slice_subrange(rest, k + 1, n);
        proof {
            assert(before.subrange(0, k as int) =~= before.take(k as int));
            assert(rest@ =~= before.skip(k + 1));
            assert(pieces(before, c) == seq![before.take(k as int)] + pieces(rest@, c));
            assert(all[done] == before.take(k as int));
            assert(all.take(done + 1) =~= all.take(done) + seq![before.take(k as int)]);
            assert(all =~= all.take(done + 1) + pieces(rest@, c));
        }
    }
}

/// Is the text among the others?
pub fn is_among(items: &[String], x: &str) -> (r: bool)
    ensures
        r == texts(items@).contains(x@),
{
    let mut i: usize = 0;
    while i < items.len()
        invariant
            i <= items@.len(),
            forall|j: int| 0 <= j < i ==> texts(items@)[j] != x@,
        decreases items@.len() - i,
    {
        if same_text(items[i].as_str(), x) {
            assert(texts(items@)[i as int] == x@);
            return true;
        }
        i += 1;
    }
    false
}

} // verus!
