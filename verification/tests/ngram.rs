//! The features and the model of the classifier.

use limen::engine::ngram::{
    count_bucket, feature_text, hash_features, single_percent_decode, strip_host_header, ModelError,
    NgramClassifier,
};

fn model(d: u32, nmin: u32, nmax: u32, bias: f32, weights: &[f32]) -> Vec<u8> {
    let mut b = Vec::new();
    b.extend_from_slice(&0x4E47524Du32.to_le_bytes());
    b.extend_from_slice(&d.to_le_bytes());
    b.extend_from_slice(&nmin.to_le_bytes());
    b.extend_from_slice(&nmax.to_le_bytes());
    b.extend_from_slice(&bias.to_le_bytes());
    for w in weights {
        b.extend_from_slice(&w.to_le_bytes());
    }
    b
}

#[test]
fn model_is_read_back() {
    let c = NgramClassifier::load(&model(4, 2, 4, -1.5, &[0.0, 1.0, -2.0, 3.25])).expect("model");
    assert_eq!(f32::from_bits(c.bias), -1.5);
    assert_eq!(c.nmin, 2);
    assert_eq!(c.nmax, 4);
    let w: Vec<f32> = c.weights.iter().map(|b| f32::from_bits(*b)).collect();
    assert_eq!(w, vec![0.0, 1.0, -2.0, 3.25]);
}

#[test]
fn bytes_behind_the_weights_are_ignored() {
    let mut b = model(1, 1, 1, 0.0, &[2.0]);
    b.extend_from_slice(&[1, 2, 3]);
    assert_eq!(NgramClassifier::load(&b).expect("model").weights.len(), 1);
}

#[test]
fn model_that_is_too_small_is_refused() {
    assert!(matches!(NgramClassifier::load(&[0u8; 19]), Err(ModelError::TooSmall)));
}

#[test]
fn model_with_another_magic_is_refused() {
    match NgramClassifier::load(&[0u8; 20]) {
        Err(ModelError::BadMagic(m)) => assert_eq!(m, 0),
        other => panic!("{:?}", other),
    }
}

#[test]
fn model_without_all_its_weights_is_refused() {
    match NgramClassifier::load(&model(2, 1, 1, 0.0, &[1.0])) {
        Err(ModelError::Truncated { expected, actual }) => {
            assert_eq!(expected, 28);
            assert_eq!(actual, 24);
        }
        other => panic!("{:?}", other),
    }
}

#[test]
fn features_are_the_request_and_its_decoding() {
    assert_eq!(
        feature_text("GET", "/A%2FB", "x=1+2", "Body", "Accept: */*\nHost: h"),
        "get /a%2fb x=1+2 body accept: */* get /a/b x=1 2 body accept: */*"
    );
}

#[test]
fn host_header_is_no_feature() {
    assert_eq!(strip_host_header("A: 1\nHost: x\nhost : y\nB: 2"), "A: 1\nB: 2");
    assert_eq!(strip_host_header("HOST"), "");
    assert_eq!(
        feature_text("GET", "/", "", "", "A: 1\nHost: one"),
        feature_text("GET", "/", "", "", "A: 1\nHost: two")
    );
}

#[test]
fn long_parts_are_cut_for_the_features() {
    let long = "a".repeat(5000);
    let t = feature_text("M", "P", "Q", &long, "");
    assert_eq!(t.chars().count(), 2 * (6 + 4096 + 1) + 1);
}

#[test]
fn characters_of_an_escape_are_decoded_once() {
    assert_eq!(single_percent_decode("%41+%zz%4"), "A %zz%4");
    assert_eq!(single_percent_decode("%e9"), "\u{e9}");
    assert_eq!(single_percent_decode("%2541"), "%41");
}

#[test]
fn buckets_count_the_ngrams() {
    let f = hash_features("aab", 1 << 18, 1, 2);
    let at = |s: &str| crc32fast::hash(s.as_bytes()) & ((1 << 18) - 1);
    assert_eq!(f.get(&at("a")), Some(&2));
    assert_eq!(f.get(&at("b")), Some(&1));
    assert_eq!(f.get(&at("aa")), Some(&1));
    assert_eq!(f.get(&at("ab")), Some(&1));
    assert_eq!(f.values().sum::<u64>(), 5);
    let f = hash_features("123456789", 1 << 31, 9, 9);
    assert_eq!(f.get(&0x4BF4_3926), Some(&1));
    assert_eq!(f.len(), 1);
}

#[test]
fn buckets_lie_within_the_model() {
    let c = NgramClassifier::load(&model(4, 1, 3, 0.0, &[0.0; 4])).expect("model");
    let f = c.count_features("some text with 你好");
    assert!(f.keys().all(|k| *k < 4));
    assert_eq!(f.values().sum::<u64>(), 17 + 16 + 15);
}

#[test]
fn short_text_has_no_long_ngrams() {
    assert!(hash_features("a", 16, 2, 4).is_empty());
    assert!(hash_features("abc", 16, 3, 2).is_empty());
}

#[test]
fn checksum_is_cut_to_a_bucket() {
    let mut f = std::collections::HashMap::new();
    count_bucket(&mut f, 0xABCD, 0xF);
    count_bucket(&mut f, 0x1D, 0xF);
    count_bucket(&mut f, 0x1E, 0xF);
    assert_eq!(f.get(&0xD), Some(&2));
    assert_eq!(f.get(&0xE), Some(&1));
    assert_eq!(f.len(), 2);
}
