use seedsearch::checksum::filter_phrase;
use seedsearch::offset::Offset;
use seedsearch::template::PartialSeed;

const VALID_ZERO_ENTROPY: &str = "abandon abandon abandon abandon abandon abandon abandon abandon abandon abandon abandon about";
const VALID_ONES_ENTROPY: &str = "zoo zoo zoo zoo zoo zoo zoo zoo zoo zoo zoo wrong";

#[test]
fn accepts_known_valid_phrases() {
    let v = filter_phrase(VALID_ZERO_ENTROPY.to_string()).expect("checksum-valid phrase");
    assert_eq!(v.phrase, VALID_ZERO_ENTROPY);
    assert_eq!(v.seed.len(), 64);
    assert!(filter_phrase(VALID_ONES_ENTROPY.to_string()).is_some());
}

#[test]
fn rejects_checksum_invalid_phrase() {
    // same words, wrong final word: the checksum bits cannot match
    let bad = "abandon abandon abandon abandon abandon abandon abandon abandon abandon abandon abandon abandon";
    assert!(filter_phrase(bad.to_string()).is_none());
}

#[test]
fn rejects_wrong_word_count_and_unknown_words() {
    assert!(filter_phrase("abandon about".to_string()).is_none());
    let not_words = "qqqq qqqq qqqq qqqq qqqq qqqq qqqq qqqq qqqq qqqq qqqq qqqq";
    assert!(filter_phrase(not_words.to_string()).is_none());
}

#[test]
fn seed_bytes_match_the_standard_derivation() {
    let v = filter_phrase(VALID_ZERO_ENTROPY.to_string()).unwrap();
    let m = bip39::Mnemonic::parse_in_normalized(bip39::Language::English, VALID_ZERO_ENTROPY)
        .unwrap();
    assert_eq!(v.seed, m.to_seed_normalized("").to_vec());
}

#[test]
fn evaluate_filters_enumerated_candidates() {
    let t = PartialSeed::new(
        "abandon abandon abandon abandon abandon abandon abandon abandon abandon abandon abandon *",
    );
    // word 3 is "about": the one zero-high-bits completion that passes
    let hit = t.evaluate(&Offset::from_u128(3, 1).unwrap()).expect("valid candidate");
    assert_eq!(hit.phrase, VALID_ZERO_ENTROPY);
    assert_eq!(hit.seed.len(), 64);
    // neighbours fail the checksum
    assert!(t.evaluate(&Offset::from_u128(0, 1).unwrap()).is_none());
    assert!(t.evaluate(&Offset::from_u128(1, 1).unwrap()).is_none());
    assert!(t.evaluate(&Offset::from_u128(2, 1).unwrap()).is_none());
}
