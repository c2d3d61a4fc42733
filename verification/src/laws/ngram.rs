//! What the features of the second tier are for: every n-gram of a request
//! counts, on every length and at every position, and a model file is read as it
//! is laid out.

use vstd::prelude::*;
use vstd::string::*;
use vstd::utf8::*;

use crate::engine::ngram::{
    all_buckets, bucket, bucket_mask, char_decoded, counted, crc32, features, hex_char_value,
    hostless, is_host_line, law_counts_are_frequencies, model_in, without_host, ModelError,
    ModelView,
};
use crate::laws::decode::{is_hex_digit, is_no_hex_digit};
use crate::laws::text::{lacks, law_case_is_all_that_is_ignored, law_positions, same_letters};
use crate::text::{joined, lowercase_text, text_lines, trimmed};

verus! {

/// The buckets of the greatest length follow those of the lesser ones, and there
/// is one for each position at which an n-gram of that length can start: the
/// masked checksum of the characters from there on.
pub proof fn law_every_position_has_its_bucket(s: Seq<char>, nmin: int, nmax: int, mask: u32)
    requires
        0 <= nmin <= nmax,
    ensures
        ({
            let all = all_buckets(s, nmin, nmax, mask);
            let shorter = all_buckets(s, nmin, nmax - 1, mask);
            &&& nmax <= s.len() ==> all.len() == shorter.len() + s.len() - nmax + 1
            &&& nmax > s.len() ==> all.len() == shorter.len()
            &&& forall|j: int| 0 <= j < shorter.len() ==> (#[trigger] all[j]) == shorter[j]
            &&& forall|i: int|
                #![trigger s.subrange(i, i + nmax)]
                0 <= i && i + nmax <= s.len() ==> all[shorter.len() + i] == crc32(
                    encode_utf8(s.subrange(i, i + nmax)),
                ) & mask
        }),
        all_buckets(s, nmin, nmin - 1, mask).len() == 0,
{
}

/// Every n-gram counts: for each length from the least to the greatest, and each
/// position at which an n-gram of that length can start, the bucket of the
/// characters from there on is among those counted.
pub proof fn law_every_gram_is_counted(
    s: Seq<char>,
    nmin: int,
    nmax: int,
    d: u32,
    n: int,
    i: int,
)
    requires
        0 <= nmin <= n <= nmax,
        0 <= i,
        i + n <= s.len(),
    ensures
        d > 0 ==> counted(all_buckets(s, nmin, nmax, bucket_mask(d))).contains_key(
            crc32(encode_utf8(s.subrange(i, i + n))) & ((d - 1) as u32),
        ),
        d == 0 ==> counted(all_buckets(s, nmin, nmax, bucket_mask(d))).contains_key(
            crc32(encode_utf8(s.subrange(i, i + n))) & 0xffff_ffff,
        ),
{
    let mask = bucket_mask(d);
    let k = crc32(encode_utf8(s.subrange(i, i + n))) & mask;
    lemma_gram_has_its_bucket(s, nmin, nmax, mask, n, i);
    law_counts_are_frequencies(all_buckets(s, nmin, nmax, mask), k);
}

proof fn lemma_gram_has_its_bucket(
    s: Seq<char>,
    nmin: int,
    nmax: int,
    mask: u32,
    n: int,
    i: int,
)
    requires
        0 <= nmin <= n <= nmax,
        0 <= i,
        i + n <= s.len(),
    ensures
        all_buckets(s, nmin, nmax, mask).contains(
            crc32(encode_utf8(s.subrange(i, i + n))) & mask,
        ),
    decreases nmax - n,
{
    let k = crc32(encode_utf8(s.subrange(i, i + n))) & mask;
    let all = all_buckets(s, nmin, nmax, mask);
    let shorter = all_buckets(s, nmin, nmax - 1, mask);
    law_every_position_has_its_bucket(s, nmin, nmax, mask);
    if n < nmax {
        lemma_gram_has_its_bucket(s, nmin, nmax - 1, mask, n, i);
        let j = choose|j: int| 0 <= j < shorter.len() && shorter[j] == k;
        assert(all[j] == k);
    } else {
        assert(all[shorter.len() + i] == k);
    }
}

/// The number of n-grams of all lengths from `nmin` to `nmax` in a text of `len`
/// characters.
pub open spec fn grams(len: nat, nmin: int, nmax: int) -> nat
    decreases nmax - nmin + 1,
{
    if nmax < nmin {
        0
    } else {
        grams(len, nmin, nmax - 1) + if nmax <= len {
            (len - nmax + 1) as nat
        } else {
            0
        }
    }
}

/// The bucket is that of the characters at some position, as many as one of the
/// lengths.
pub open spec fn of_a_gram(s: Seq<char>, nmin: int, nmax: int, mask: u32, k: u32) -> bool {
    exists|n: int, i: int|
        nmin <= n <= nmax && 0 <= i && i + n <= s.len() && k == crc32(
            encode_utf8(#[trigger] s.subrange(i, i + n)),
        ) & mask
}

/// No n-gram is counted that is not in the text: each bucket is that of an n-gram
/// at some position, and there are as many as there are positions.
pub proof fn law_only_grams_are_counted(s: Seq<char>, nmin: int, nmax: int, mask: u32)
    requires
        0 <= nmin,
    ensures
        all_buckets(s, nmin, nmax, mask).len() == grams(s.len(), nmin, nmax),
        forall|j: int|
            0 <= j < all_buckets(s, nmin, nmax, mask).len() ==> of_a_gram(
                s,
                nmin,
                nmax,
                mask,
                #[trigger] all_buckets(s, nmin, nmax, mask)[j],
            ),
    decreases nmax - nmin + 1,
{
    if nmin <= nmax {
        let all = all_buckets(s, nmin, nmax, mask);
        let shorter = all_buckets(s, nmin, nmax - 1, mask);
        law_only_grams_are_counted(s, nmin, nmax - 1, mask);
        law_every_position_has_its_bucket(s, nmin, nmax, mask);
        assert forall|j: int| 0 <= j < all.len() implies of_a_gram(
            s,
            nmin,
            nmax,
            mask,
            #[trigger] all[j],
        ) by {
            if j < shorter.len() {
                assert(all[j] == shorter[j]);
                assert(of_a_gram(s, nmin, nmax - 1, mask, shorter[j]));
                let (n, i) = choose|n: int, i: int|
                    nmin <= n <= nmax - 1 && 0 <= i && i + n <= s.len() && shorter[j] == crc32(
                        encode_utf8(#[trigger] s.subrange(i, i + n)),
                    ) & mask;
                assert(all[j] == crc32(encode_utf8(s.subrange(i, i + n))) & mask);
            } else {
                let i = j - shorter.len();
                assert(all[shorter.len() + i] == crc32(encode_utf8(s.subrange(i, i + nmax)))
                    & mask);
            }
        }
    }
}

/// Each bucket counts once more each time that it occurs, up to the greatest
/// count, and the others stay.
pub proof fn law_counting(buckets: Seq<u32>, k: u32, other: u32)
    ensures
        counted(Seq::empty()) == Map::<u32, u64>::empty(),
        ({
            let before = counted(buckets);
            let after = counted(buckets.push(k));
            &&& after.contains_key(k)
            &&& !before.contains_key(k) ==> after[k] == 1
            &&& before.contains_key(k) && before[k] < u64::MAX ==> after[k] == before[k] + 1
            &&& before.contains_key(k) && before[k] == u64::MAX ==> after[k] == before[k]
            &&& other != k ==> after.contains_key(other) == before.contains_key(other)
            &&& other != k && before.contains_key(other) ==> after[other] == before[other]
        }),
{
    assert(buckets.push(k).drop_last() =~= buckets);
}

/// A percent escape is the character with the number that its two digits write,
/// whatever their case; the first digit may be a plus.
pub proof fn law_escaped_characters(a: char, b: char, h: int, l: int, rest: Seq<char>)
    requires
        is_hex_digit(a as int, h) || (a == '+' && h == 0),
        is_hex_digit(b as int, l),
    ensures
        char_decoded(seq!['%', a, b] + rest) == seq![(16 * h + l) as char] + char_decoded(rest),
{
    let s = seq!['%', a, b] + rest;
    assert(s[0] == '%' && s[1] == a && s[2] == b);
    assert(s.skip(3) =~= rest);
    assert(hex_char_value(b) == Some(l as u32));
    if a == '+' {
        assert(hex_char_value(a) is None);
    } else {
        assert(hex_char_value(a) == Some(h as u32));
    }
}

/// Outside escapes a plus is a space, and every other character stays; so does a
/// percent sign with no two digits after it.
pub proof fn law_plain_characters(c: char, rest: Seq<char>)
    requires
        ({
            ||| c != '%'
            ||| rest.len() < 2
            ||| is_no_hex_digit(rest[1] as int)
            ||| is_no_hex_digit(rest[0] as int) && rest[0] != '+'
        }),
    ensures
        char_decoded(Seq::empty()) == Seq::<char>::empty(),
        char_decoded(seq![c] + rest) == seq![if c == '+' {
            ' '
        } else {
            c
        }] + char_decoded(rest),
{
    let s = seq![c] + rest;
    assert(s[0] == c);
    assert(s.skip(1) =~= rest);
    if c == '%' && rest.len() >= 2 {
        assert(s[1] == rest[0] && s[2] == rest[1]);
        if is_no_hex_digit(rest[1] as int) {
            lemma_no_digit(rest[1]);
        } else {
            lemma_no_digit(rest[0]);
        }
    }
}

proof fn lemma_no_digit(c: char)
    requires
        is_no_hex_digit(c as int),
    ensures
        hex_char_value(c) is None,
{
    if hex_char_value(c) is Some {
        assert(is_hex_digit(c as int, hex_char_value(c)->0 as int));
    }
}

/// A line is a Host header if what stands before its first colon, or the whole
/// line where there is none, reads `host` without the white space around it,
/// whatever the case.
pub proof fn law_host_headers(name: Seq<char>, value: Seq<char>)
    requires
        lacks(name, ':'),
    ensures
        is_host_line(name + seq![':'] + value) <==> same_letters(
            trimmed(name),
            seq!['h', 'o', 's', 't'],
        ),
        is_host_line(name) <==> same_letters(trimmed(name), seq!['h', 'o', 's', 't']),
{
    reveal_strlit("host");
    assert("host"@ =~= seq!['h', 'o', 's', 't']);
    law_case_is_all_that_is_ignored(trimmed(name), "host"@);
    law_positions(name, ':', value);
    assert((name + seq![':'] + value).take(name.len() as int) =~= name);
}

/// Of some lines those that are no Host header stay, in their order.
pub proof fn law_other_headers_stay(lines: Seq<Seq<char>>, line: Seq<char>)
    ensures
        without_host(Seq::empty()) == Seq::<Seq<char>>::empty(),
        without_host(lines.push(line)) == if is_host_line(line) {
            without_host(lines)
        } else {
            without_host(lines).push(line)
        },
{
    assert(lines.push(line).drop_last() =~= lines);
}

/// The features are the method, the path, the query, the first characters of the
/// body and the first of the headers but for Host, a space between two; then the
/// same once more, percent decoded; all in lower case.
pub proof fn law_features_hold_the_request(
    method: Seq<char>,
    path: Seq<char>,
    query: Seq<char>,
    body: Seq<char>,
    headers: Seq<char>,
)
    ensures
        ({
            let kept = joined(without_host(text_lines(headers)), seq!['\n']);
            let raw = method + seq![' '] + path + seq![' '] + query + seq![' '] + (if body.len()
                <= 4096 {
                body
            } else {
                body.subrange(0, 4096)
            }) + seq![' '] + (if kept.len() <= 4096 {
                kept
            } else {
                kept.subrange(0, 4096)
            });
            features(method, path, query, body, headers) == lowercase_text(
                raw + seq![' '] + char_decoded(raw),
            )
        }),
{
    reveal_strlit(" ");
    reveal_strlit("\n");
    assert(" "@ =~= seq![' ']);
    assert("\n"@ =~= seq!['\n']);
    let kept = joined(without_host(text_lines(headers)), seq!['\n']);
    assert(kept == hostless(headers));
    assert(body.take(4096) =~= body.subrange(0, 4096));
    assert(kept.take(4096) =~= kept.subrange(0, 4096));
}

/// The number that four bytes from `at` on write, the least byte first.
pub open spec fn number_at(b: Seq<u8>, at: int) -> int {
    b[at] + 256 * b[at + 1] + 65_536 * b[at + 2] + 16_777_216 * b[at + 3]
}

/// A model file holds the four letters `MRGN`, the number of its weights, the
/// least and the greatest length, the bias and the weights; each file is read so,
/// and else refused for what it lacks.
pub proof fn law_model_layout(b: Seq<u8>, i: int)
    requires
        b.len() <= u64::MAX,
    ensures
        model_in(b) == Err::<ModelView, ModelError>(ModelError::TooSmall) <==> b.len() < 20,
        b.len() >= 20 && !(b[0] == 0x4d && b[1] == 0x52 && b[2] == 0x47 && b[3] == 0x4e) ==> (
        model_in(b) matches Err(ModelError::BadMagic(m)) && m == number_at(b, 0)),
        b.len() >= 20 && b[0] == 0x4d && b[1] == 0x52 && b[2] == 0x47 && b[3] == 0x4e && b.len()
            < 20 + 4 * number_at(b, 4) ==> (model_in(b) matches Err(
            ModelError::Truncated { expected, actual },
        ) && expected == 20 + 4 * number_at(b, 4) && actual == b.len()),
        b.len() >= 20 && b[0] == 0x4d && b[1] == 0x52 && b[2] == 0x47 && b[3] == 0x4e && b.len()
            >= 20 + 4 * number_at(b, 4) ==> (model_in(b) matches Ok(m) && {
            &&& m.weights.len() == number_at(b, 4)
            &&& m.nmin == number_at(b, 8)
            &&& m.nmax == number_at(b, 12)
            &&& m.bias == number_at(b, 16)
            &&& 0 <= i < m.weights.len() ==> m.weights[i] == number_at(b, 20 + 4 * i)
        }),
{
}

} // verus!
