//! The second tier's features: the character n-grams of a request, hashed into
//! buckets, and the file that holds a trained model.
//!
//! A model file is little endian throughout: a magic number, the number of
//! buckets, the least and the greatest n-gram length, the bias, and one weight
//! for each bucket. Bias and weights are 32-bit floating point numbers and are
//! kept as their bits.

use std::collections::HashMap;

use vstd::prelude::*;
use vstd::slice::*;
use vstd::string::*;
use vstd::utf8::*;

use crate::text::{
    at_most, chars_of, eq_ignore_case, head, join, joined, lowercase, lowercase_text,
    same_ignoring_case, split_at_first, split_lines, split_once, text_lines, text_of, texts, trim,
    trimmed,
};

verus! {

/// The first four bytes of a model file, as a number.
pub const MAGIC: u32 = 0x4E47524D;

/// The number of characters of the body, and of the headers, that count.
pub const MAX_FEATURE_CHARS: usize = 4096;

/// The remainder after `bits` more zero bits, by the polynomial of CRC-32 with its
/// lowest power first.
pub open spec fn crc32_shifted(remainder: u32, bits: nat) -> u32
    decreases bits,
{
    if bits == 0 {
        remainder
    } else {
        let r = crc32_shifted(remainder, (bits - 1) as nat);
        if r & 1 == 1 {
            (r >> 1) ^ 0xEDB8_8320u32
        } else {
            r >> 1
        }
    }
}

/// The remainder of some bytes, which starts with all bits set.
pub open spec fn crc32_remainder(bytes: Seq<u8>) -> u32
    decreases bytes.len(),
{
    if bytes.len() == 0 {
        0xFFFF_FFFF
    } else {
        crc32_shifted(crc32_remainder(bytes.drop_last()) ^ (bytes.last() as u32), 8)
    }
}

/// The CRC-32 checksum of some bytes: their remainder with all bits turned over.
pub open spec fn crc32(bytes: Seq<u8>) -> u32 {
    !crc32_remainder(bytes)
}

/// `crc32fast::hash`: the CRC-32 checksum of the bytes.
pub assume_specification[ crc32fast::hash ](buf: &[u8]) -> (r: u32)
    ensures
        r == crc32(buf@),
;

/// A trained model.
#[derive(Debug)]
pub struct NgramClassifier {
    /// The bits of the weights, one for each bucket.
    pub weights: Vec<u32>,
    /// The bits of the bias.
    pub bias: u32,
    /// The least n-gram length.
    pub nmin: u32,
    /// The greatest n-gram length.
    pub nmax: u32,
}

/// A model as its numbers.
pub struct ModelView {
    pub weights: Seq<u32>,
    pub bias: u32,
    pub nmin: u32,
    pub nmax: u32,
}

impl View for NgramClassifier {
    type V = ModelView;

    open spec fn view(&self) -> ModelView {
        ModelView { weights: self.weights@, bias: self.bias, nmin: self.nmin, nmax: self.nmax }
    }
}

/// Why a file is not a model.
#[derive(Debug, Clone, Copy, PartialEq, Eq, Structural)]
pub enum ModelError {
    /// It is shorter than the header.
    TooSmall,
    /// It starts with this number in place of the magic one.
    BadMagic(u32),
    /// It should hold this many bytes, and holds fewer.
    Truncated { expected: u64, actual: u64 },
}

/// The number at `at`, in little endian order.
pub open spec fn le_u32(b: Seq<u8>, at: int) -> u32 {
    (b[at] + 0x100 * b[at + 1] + 0x1_0000 * b[at + 2] + 0x100_0000 * b[at + 3]) as u32
}

/// The bytes of a number, in little endian order.
pub open spec fn le_bytes(v: u32) -> Seq<u8> {
    seq![
        (v % 0x100) as u8,
        (v / 0x100 % 0x100) as u8,
        (v / 0x1_0000 % 0x100) as u8,
        (v / 0x100_0000) as u8,
    ]
}

/// The number of bytes that a model file of `buckets` buckets takes.
pub open spec fn model_size(buckets: u32) -> nat {
    (20 + 4 * buckets) as nat
}

/// The model in a file, or why there is none.
pub open spec fn model_in(b: Seq<u8>) -> Result<ModelView, ModelError> {
    if b.len() < 20 {
        Err(ModelError::TooSmall)
    } else if le_u32(b, 0) != MAGIC {
        Err(ModelError::BadMagic(le_u32(b, 0)))
    } else if b.len() < model_size(le_u32(b, 4)) {
        Err(
            ModelError::Truncated {
                expected: model_size(le_u32(b, 4)) as u64,
                actual: b.len() as u64,
            },
        )
    } else {
        Ok(
            ModelView {
                weights: Seq::new(le_u32(b, 4) as nat, |i: int| le_u32(b, 20 + 4 * i)),
                bias: le_u32(b, 16),
                nmin: le_u32(b, 8),
                nmax: le_u32(b, 12),
            },
        )
    }
}

/// The weights as they stand in a file.
pub open spec fn weight_bytes(w: Seq<u32>) -> Seq<u8>
    decreases w.len(),
{
    if w.len() == 0 {
        Seq::empty()
    } else {
        weight_bytes(w.drop_last()) + le_bytes(w.last())
    }
}

/// The file of a model.
pub open spec fn model_bytes(m: ModelView) -> Seq<u8> {
    le_bytes(MAGIC) + le_bytes(m.weights.len() as u32) + le_bytes(m.nmin) + le_bytes(m.nmax)
        + le_bytes(m.bias) + weight_bytes(m.weights)
}

/// The value of a hexadecimal digit.
pub open spec fn hex_char_value(c: char) -> Option<u32> {
    if '0' <= c <= '9' {
        Some((c as u32 - 48) as u32)
    } else if 'a' <= c <= 'f' {
        Some((c as u32 - 87) as u32)
    } else if 'A' <= c <= 'F' {
        Some((c as u32 - 55) as u32)
    } else {
        None
    }
}

/// The number that two characters write in hexadecimal; a plus may stand in
/// place of the first digit.
pub open spec fn hex_pair(a: char, b: char) -> Option<u32> {
    match hex_char_value(b) {
        Some(l) => match hex_char_value(a) {
            Some(h) => Some((h * 16 + l) as u32),
            None => if a == '+' {
                Some(l)
            } else {
                None
            },
        },
        None => None,
    }
}

/// The character that a percent escape at the start of `s` stands for.
pub open spec fn char_escape(s: Seq<char>) -> Option<char> {
    if s.len() >= 3 && s[0] == '%' && hex_pair(s[1], s[2]) is Some {
        Some(hex_pair(s[1], s[2])->0 as char)
    } else {
        None
    }
}

/// What a character outside every percent escape stands for: a plus is a space.
pub open spec fn plus_char(c: char) -> char {
    if c == '+' {
        ' '
    } else {
        c
    }
}

/// A text with every percent escape and every plus replaced, once.
pub open spec fn char_decoded(s: Seq<char>) -> Seq<char>
    decreases s.len(),
{
    if s.len() == 0 {
        Seq::empty()
    } else if char_escape(s) is Some {
        seq![char_escape(s)->0] + char_decoded(s.skip(3))
    } else {
        seq![plus_char(s[0])] + char_decoded(s.skip(1))
    }
}

/// The name of a header: what stands before the colon.
pub open spec fn header_name(line: Seq<char>) -> Seq<char> {
    match split_at_first(line, ':') {
        Some((name, _)) => name,
        None => line,
    }
}

/// Is the line a Host header?
pub open spec fn is_host_line(line: Seq<char>) -> bool {
    same_ignoring_case(trimmed(header_name(line)), "host"@)
}

/// The lines that are no Host header, in their order.
pub open spec fn without_host(lines: Seq<Seq<char>>) -> Seq<Seq<char>>
    decreases lines.len(),
{
    if lines.len() == 0 {
        Seq::empty()
    } else if is_host_line(lines.last()) {
        without_host(lines.drop_last())
    } else {
        without_host(lines.drop_last()).push(lines.last())
    }
}

/// The headers without the Host header.
pub open spec fn hostless(headers: Seq<char>) -> Seq<char> {
    joined(without_host(text_lines(headers)), "\n"@)
}

/// The features of a request as one text, before it is decoded.
pub open spec fn raw_features(
    method: Seq<char>,
    path: Seq<char>,
    query: Seq<char>,
    body: Seq<char>,
    headers: Seq<char>,
) -> Seq<char> {
    method + " "@ + path + " "@ + query + " "@ + at_most(body, MAX_FEATURE_CHARS as nat) + " "@
        + at_most(hostless(headers), MAX_FEATURE_CHARS as nat)
}

/// The features of a request as one text: as it came and percent decoded, in
/// lower case.
pub open spec fn features(
    method: Seq<char>,
    path: Seq<char>,
    query: Seq<char>,
    body: Seq<char>,
    headers: Seq<char>,
) -> Seq<char> {
    let raw = raw_features(method, path, query, body, headers);
    lowercase_text(raw + " "@ + char_decoded(raw))
}

/// The bucket of the n-gram of length `n` at `i`.
pub open spec fn bucket(s: Seq<char>, n: int, i: int, mask: u32) -> u32 {
    crc32(encode_utf8(s.subrange(i, i + n))) & mask
}

/// The buckets of the first `count` n-grams of length `n`.
pub open spec fn first_buckets(s: Seq<char>, n: int, count: int, mask: u32) -> Seq<u32> {
    Seq::new(count as nat, |i: int| bucket(s, n, i, mask))
}

/// The number of n-grams of length `n` in a text of `len` characters.
pub open spec fn gram_count(len: nat, n: int) -> int {
    if n <= len {
        len - n + 1
    } else {
        0
    }
}

/// The buckets of all n-grams from the length `nmin` to the length `nmax`.
pub open spec fn all_buckets(s: Seq<char>, nmin: int, nmax: int, mask: u32) -> Seq<u32>
    decreases nmax - nmin + 1,
{
    if nmax < nmin {
        Seq::empty()
    } else {
        all_buckets(s, nmin, nmax - 1, mask) + first_buckets(
            s,
            nmax,
            gram_count(s.len(), nmax),
            mask,
        )
    }
}

/// The counts with one more in bucket `k`. A count stays at its maximum.
pub open spec fn bumped(m: Map<u32, u64>, k: u32) -> Map<u32, u64> {
    m.insert(
        k,
        if !m.contains_key(k) {
            1
        } else if m[k] < u64::MAX {
            (m[k] + 1) as u64
        } else {
            u64::MAX
        },
    )
}

/// How often each bucket occurs.
pub open spec fn counted(buckets: Seq<u32>) -> Map<u32, u64>
    decreases buckets.len(),
{
    if buckets.len() == 0 {
        Map::empty()
    } else {
        bumped(counted(buckets.drop_last()), buckets.last())
    }
}

/// The mask that takes a hash to one of `d` buckets.
pub open spec fn bucket_mask(d: u32) -> u32 {
    if d == 0 {
        u32::MAX
    } else {
        (d - 1) as u32
    }
}

fn read_u32(data: &[u8], at: usize) -> (r: u32)
    requires
        at + 4 <= data@.len(),
    ensures
        r == le_u32(data@, at as int),
{
    let n: usize = data.len();
    data[at] as u32 + 0x100 * data[at + 1] as u32 + 0x1_0000 * data[at + 2] as u32 + 0x100_0000
        * data[at + 3] as u32
}

fn char_val(c: char) -> (r: Option<u32>)
    ensures
        r == hex_char_value(c),
{
    if '0' <= c && c <= '9' {
        Some(c as u32 - 48)
    } else if 'a' <= c && c <= 'f' {
        Some(c as u32 - 87)
    } else if 'A' <= c && c <= 'F' {
        Some(c as u32 - 55)
    } else {
        None
    }
}

fn pair_val(a: char, b: char) -> (r: Option<u8>)
    ensures
        match r {
            Some(v) => hex_pair(a, b) == Some(v as u32),
            None => hex_pair(a, b) is None,
        },
{
    match char_val(b) {
        Some(l) => match char_val(a) {
            Some(h) => Some((h * 16 + l) as u8),
            None => if a == '+' {
                Some(l as u8)
            } else {
                None
            },
        },
        None => None,
    }
}

/// A text with every percent escape and every plus replaced, once. A decoded
/// byte is the character of that number.
pub fn single_percent_decode(s: &str) -> (r: String)
    ensures
        r@ == char_decoded(s@),
{
    let chars: Vec<char> = chars_of(s);
    let mut out: String = String::new();
    let n: usize = chars.len();
    let mut i: usize = 0;
    assert(chars@.skip(0) == chars@);
    while i < n
        invariant
            i <= n == chars@.len(),
            out@ + char_decoded(chars@.skip(i as int)) == char_decoded(chars@),
        decreases n - i,
    {
        let ghost rest = chars@.skip(i as int);
        let mut step: usize = 1;
        let mut c: char = if chars[i] == '+' {
            ' '
        } else {
            chars[i]
        };
        if chars[i] == '%' && n - i > 2 {
            if let Some(v) = pair_val(chars[i + 1], chars[i + 2]) {
                c = v as char;
                step = 3;
            }
        }
        proof {
            assert(rest.skip(step as int) == chars@.skip(i + step));
            assert(char_decoded(rest) == seq![c] + char_decoded(rest.skip(step as int)));
            assert(out@ + char_decoded(rest) == out@.push(c) + char_decoded(
                chars@.skip(i + step),
            ));
        }
        out.push(c);
        i += step;
    }
    assert(chars@.skip(i as int).len() == 0);
    assert(out@ + Seq::<char>::empty() == out@);
    out
}

/// The headers without the Host header, which in training samples names the
/// target rather than the attack.
pub fn strip_host_header(headers: &str) -> (r: String)
    ensures
        r@ == hostless(headers@),
{
    let chars: Vec<char> = chars_of(headers);
    let lines: Vec<&[char]> = split_lines(chars.as_slice());
    let host: Vec<char> = chars_of("host");
    let ghost all = text_lines(headers@);
    let mut kept: Vec<String> = Vec::new();
    let mut i: usize = 0;
    assert(texts(kept@) =~= without_host(all.take(0)));
    while i < lines.len()
        invariant
            i <= lines@.len(),
            all == text_lines(headers@),
            lines@.len() == all.len(),
            forall|j: int| 0 <= j < lines@.len() ==> lines@[j]@ == all[j],
            host@ == "host"@,
            texts(kept@) == without_host(all.take(i as int)),
        decreases lines@.len() - i,
    {
        let line: &[char] = lines[i];
        let name: &[char] = match split_once(line, ':') {
            Some((a, _)) => a,
            None => line,
        };
        proof {
            assert(all.take(i + 1).drop_last() == all.take(i as int));
            assert(all.take(i + 1).last() == line@);
        }
        if !eq_ignore_case(trim(name), host.as_slice()) {
            let ghost before = texts(kept@);
            let s: String = text_of(line);
            kept.push(s);
            assert(texts(kept@) =~= before.push(line@));
        }
        i += 1;
    }
    assert(all.take(i as int) == all);
    join(&kept, "\n")
}

/// The features of a request as one text.
pub fn feature_text(method: &str, path: &str, query: &str, body: &str, headers: &str) -> (r: String)
    ensures
        r@ == features(method@, path@, query@, body@, headers@),
{
    let mut raw: String = method.to_owned();
    raw.append(" ");
    raw.append(path);
    raw.append(" ");
    raw.append(query);
    raw.append(" ");
    raw.append(head(body, MAX_FEATURE_CHARS).as_str());
    raw.append(" ");
    raw.append(head(strip_host_header(headers).as_str(), MAX_FEATURE_CHARS).as_str());
    let decoded: String = single_percent_decode(raw.as_str());
    raw.append(" ");
    raw.append(decoded.as_str());
    lowercase(raw.as_str())
}

/// Counts an n-gram with a checksum in its bucket.
pub fn count_bucket(feats: &mut HashMap<u32, u64>, hash: u32, mask: u32)
    ensures
        final(feats)@ == bumped(old(feats)@, hash & mask),
{
    let k: u32 = hash & mask;
    let c: u64 = match feats.get(&k) {
        Some(c) => c.saturating_add(1),
        None => 1,
    };
    feats.insert(k, c);
    assert(feats@ =~= bumped(old(feats)@, k));
}

/// How often each bucket is hit by the n-grams of a text, from the length
/// `nmin` to the length `nmax`.
pub fn hash_features(text: &str, d: u32, nmin: u32, nmax: u32) -> (r: HashMap<u32, u64>)
    ensures
        r@ == counted(all_buckets(text@, nmin as int, nmax as int, bucket_mask(d))),
{
    let chars: Vec<char> = chars_of(text);
    let len: usize = chars.len();
    let mask: u32 = d.wrapping_sub(1);
    let mut feats: HashMap<u32, u64> = HashMap::new();
    let mut n: u64 = nmin as u64;
    let ghost done: Seq<u32> = Seq::empty();
    while n <= nmax as u64 && n <= len as u64
        invariant
            nmin <= n <= nmax + 1 || n == nmin,
            len == chars@.len(),
            chars@ == text@,
            mask == bucket_mask(d),
            done == all_buckets(text@, nmin as int, n - 1, mask),
            feats@ == counted(done),
        decreases nmax + 1 - n,
    {
        let count: u128 = (len - n as usize) as u128 + 1;
        let mut i: u128 = 0;
        assert(done + first_buckets(text@, n as int, 0, mask) == done);
        while i < count
            invariant
                i <= count == len - n + 1,
                n <= len == chars@.len(),
                chars@ == text@,
                feats@ == counted(done + first_buckets(text@, n as int, i as int, mask)),
            decreases count - i,
        {
            let gram: String = text_of(slice_subrange(chars.as_slice(), i as usize, i as usize + n as usize));
            let hash: u32 = crc32fast::hash(gram.as_str().as_bytes());
            count_bucket(&mut feats, hash, mask);
            proof {
                let k = hash & mask;
                let before = done + first_buckets(text@, n as int, i as int, mask);
                let after = done + first_buckets(text@, n as int, i + 1, mask);
                assert(k == bucket(text@, n as int, i as int, mask));
                assert(after.drop_last() =~= before);
                assert(after.last() == k);
            }
            i += 1;
        }
        proof {
            done = all_buckets(text@, nmin as int, n as int, mask);
        }
        n += 1;
    }
    proof {
        if n <= nmax as u64 {
            lemma_no_longer_grams(text@, nmin as int, n as int, nmax as int, mask);
        }
    }
    feats
}

proof fn lemma_no_longer_grams(s: Seq<char>, nmin: int, n: int, nmax: int, mask: u32)
    requires
        n > s.len(),
        nmin <= n,
        n - 1 <= nmax,
    ensures
        all_buckets(s, nmin, nmax, mask) == all_buckets(s, nmin, n - 1, mask),
    decreases nmax - n + 1,
{
    if nmax >= n {
        lemma_no_longer_grams(s, nmin, n, nmax - 1, mask);
        assert(first_buckets(s, nmax, gram_count(s.len(), nmax), mask).len() == 0);
        assert(all_buckets(s, nmin, nmax, mask) =~= all_buckets(s, nmin, nmax - 1, mask));
    }
}

impl NgramClassifier {
    /// The model in a file.
    pub fn load(data: &[u8]) -> (r: Result<Self, ModelError>)
        ensures
            match r {
                Ok(m) => model_in(data@) == Ok::<ModelView, ModelError>(m@),
                Err(e) => model_in(data@) == Err::<ModelView, ModelError>(e),
            },
    {
        let n: usize = data.len();
        if n < 20 {
            return Err(ModelError::TooSmall);
        }
        let magic: u32 = read_u32(data, 0);
        if magic != MAGIC {
            return Err(ModelError::BadMagic(magic));
        }
        let d: u32 = read_u32(data, 4);
        let expected: u64 = 20 + 4 * d as u64;
        if (n as u64) < expected {
            return Err(ModelError::Truncated { expected, actual: n as u64 });
        }
        let mut weights: Vec<u32> = Vec::new();
        let mut i: usize = 0;
        while i < d as usize
            invariant
                i <= d,
                n == data@.len(),
                20 + 4 * d <= n,
                weights@.len() == i,
                forall|j: int| 0 <= j < i ==> weights@[j] == le_u32(data@, 20 + 4 * j),
            decreases d - i,
        {
            weights.push(read_u32(data, 20 + 4 * i));
            i += 1;
        }
        let m: NgramClassifier = NgramClassifier {
            weights,
            bias: read_u32(data, 16),
            nmin: read_u32(data, 8),
            nmax: read_u32(data, 12),
        };
        assert(m@.weights =~= Seq::new(
            le_u32(data@, 4) as nat,
            |i: int| le_u32(data@, 20 + 4 * i),
        ));
        Ok(m)
    }

    /// How often each bucket of the model is hit by a text of features.
    pub fn count_features(&self, text: &str) -> (r: HashMap<u32, u64>)
        ensures
            r@ == counted(
                all_buckets(
                    text@,
                    self.nmin as int,
                    self.nmax as int,
                    bucket_mask(self.weights@.len() as u32),
                ),
            ),
    {
        hash_features(text, self.weights.len() as u32, self.nmin, self.nmax)
    }
}

proof fn lemma_weight_bytes(w: Seq<u32>)
    ensures
        weight_bytes(w).len() == 4 * w.len(),
        forall|i: int| 0 <= i < w.len() ==> #[trigger] le_u32(weight_bytes(w), 4 * i) == w[i],
    decreases w.len(),
{
    if w.len() > 0 {
        let front = w.drop_last();
        lemma_weight_bytes(front);
        lemma_le_bytes(w.last());
        assert forall|i: int| 0 <= i < w.len() implies #[trigger] le_u32(weight_bytes(w), 4 * i)
            == w[i] by {
            if i < front.len() {
                assert(le_u32(weight_bytes(front), 4 * i) == front[i]);
            }
        }
    }
}

proof fn lemma_le_bytes(v: u32)
    ensures
        le_u32(le_bytes(v), 0) == v,
{
    let a = v / 0x100;
    let b = v / 0x1_0000;
    let c = v / 0x100_0000;
    assert(b == a / 0x100 && c == b / 0x100 && c < 0x100);
    assert(v == a * 0x100 + v % 0x100);
    assert(a == b * 0x100 + a % 0x100);
    assert(b == c * 0x100 + b % 0x100);
}

/// Loading gives back the model that a file was written from.
pub proof fn law_loading_gives_back_the_model(m: ModelView)
    requires
        m.weights.len() <= u32::MAX,
    ensures
        model_in(model_bytes(m)) == Ok::<ModelView, ModelError>(m),
{
    let b = model_bytes(m);
    lemma_weight_bytes(m.weights);
    lemma_le_bytes(MAGIC);
    lemma_le_bytes(m.weights.len() as u32);
    lemma_le_bytes(m.nmin);
    lemma_le_bytes(m.nmax);
    lemma_le_bytes(m.bias);
    assert(le_u32(b, 0) == MAGIC);
    assert(le_u32(b, 4) == m.weights.len());
    assert(le_u32(b, 8) == m.nmin);
    assert(le_u32(b, 12) == m.nmax);
    assert(le_u32(b, 16) == m.bias);
    let read = Seq::new(m.weights.len(), |i: int| le_u32(b, 20 + 4 * i));
    assert forall|i: int| 0 <= i < m.weights.len() implies read[i] == m.weights[i] by {
        assert(le_u32(weight_bytes(m.weights), 4 * i) == m.weights[i]);
    }
    assert(read =~= m.weights);
}

/// Every bucket has its weight: the buckets of a model with any weights at all
/// lie below their number.
pub proof fn law_buckets_have_weights(s: Seq<char>, nmin: int, nmax: int, d: u32)
    requires
        d > 0,
    ensures
        forall|i: int|
            0 <= i < all_buckets(s, nmin, nmax, bucket_mask(d)).len() ==> (#[trigger] all_buckets(
                s,
                nmin,
                nmax,
                bucket_mask(d),
            )[i]) < d,
    decreases nmax - nmin + 1,
{
    if nmax >= nmin {
        let mask = bucket_mask(d);
        let front = all_buckets(s, nmin, nmax - 1, mask);
        let all = all_buckets(s, nmin, nmax, mask);
        law_buckets_have_weights(s, nmin, nmax - 1, d);
        assert forall|i: int| 0 <= i < all.len() implies (#[trigger] all[i]) < d by {
            if i < front.len() {
                assert(all[i] == front[i]);
            } else {
                let h = crc32(encode_utf8(s.subrange(i - front.len(), i - front.len() + nmax)));
                assert(all[i] == h & mask);
                assert(h & mask <= mask) by (bit_vector);
            }
        }
    }
}

/// A Host header changes nothing, wherever it stands among the headers.
pub proof fn law_host_is_ignored(before: Seq<Seq<char>>, host: Seq<char>, after: Seq<Seq<char>>)
    requires
        is_host_line(host),
    ensures
        without_host(before.push(host) + after) == without_host(before + after),
    decreases after.len(),
{
    if after.len() == 0 {
        assert(before.push(host) + after == before.push(host));
        assert(before + after == before);
        assert(before.push(host).drop_last() == before);
    } else {
        let x = before.push(host) + after;
        let y = before + after;
        assert(x.drop_last() == before.push(host) + after.drop_last());
        assert(y.drop_last() == before + after.drop_last());
        law_host_is_ignored(before, host, after.drop_last());
    }
}

/// No bucket is forgotten, and each count is the number of its n-grams, as far
/// as a count goes.
pub proof fn law_counts_are_frequencies(buckets: Seq<u32>, k: u32)
    ensures
        counted(buckets).contains_key(k) <==> buckets.contains(k),
        counted(buckets).contains_key(k) ==> counted(buckets)[k] == (if buckets.filter(
            |b: u32| b == k,
        ).len() <= u64::MAX {
            buckets.filter(|b: u32| b == k).len() as int
        } else {
            u64::MAX as int
        }),
    decreases buckets.len(),
{
    let p = |b: u32| b == k;
    reveal(Seq::filter);
    if buckets.len() > 0 {
        let front = buckets.drop_last();
        law_counts_are_frequencies(front, k);
        assert(buckets == front.push(buckets.last()));
        if buckets.contains(k) {
            let i = choose|i: int| 0 <= i < buckets.len() && buckets[i] == k;
            if i < front.len() {
                assert(front[i] == k);
            }
        }
        if front.contains(k) {
            let i = choose|i: int| 0 <= i < front.len() && front[i] == k;
            assert(buckets[i] == k);
        }
        if buckets.last() == k {
            assert(buckets[buckets.len() - 1] == k);
        }
        if !front.contains(k) {
            lemma_filter_absent(front, k);
        }
    }
}

proof fn lemma_filter_absent(s: Seq<u32>, k: u32)
    requires
        !s.contains(k),
    ensures
        s.filter(|b: u32| b == k).len() == 0,
    decreases s.len(),
{
    reveal(Seq::filter);
    if s.len() > 0 {
        let front = s.drop_last();
        assert(!front.contains(k)) by {
            if front.contains(k) {
                let i = choose|i: int| 0 <= i < front.len() && front[i] == k;
                assert(s[i] == k);
            }
        }
        assert(s[s.len() - 1] != k);
        lemma_filter_absent(front, k);
    }
}

} // verus!
