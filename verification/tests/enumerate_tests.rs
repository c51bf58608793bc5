use seedsearch::offset::Offset;
use seedsearch::template::PartialSeed;

fn word(i: usize) -> &'static str {
    bip39::Language::English.word_list()[i]
}

#[test]
fn zero_wildcards_yields_the_template_itself() {
    let t = PartialSeed::new("abandon ability able");
    let o = Offset::from_u128(0, t.unknown_words()).unwrap();
    assert_eq!(t.guess_seed(&o), "abandon ability able");
}

#[test]
fn fixed_slots_verbatim_wildcards_from_digits() {
    let t = PartialSeed::new("abandon * zoo *");
    let o = Offset::from_u128(3 + 1 * 2048, 2).unwrap();
    let words = t.guess_words(&o);
    assert_eq!(words, vec!["abandon", word(3), "zoo", word(1)]);
    assert_eq!(t.guess_seed(&o), format!("abandon {} zoo {}", word(3), word(1)));
}

#[test]
fn enumeration_is_deterministic() {
    let t = PartialSeed::new("* zoo *");
    let o = Offset::from_u128(99 + 1000 * 2048, 2).unwrap();
    let a = t.guess_seed(&o);
    let b = t.guess_seed(&o);
    assert_eq!(a, b);
}

#[test]
fn lowest_digit_drives_first_wildcard_only() {
    let t = PartialSeed::new("* *");
    let a = t.guess_words(&Offset::from_u128(3 + 7 * 2048, 2).unwrap());
    let b = t.guess_words(&Offset::from_u128(5 + 7 * 2048, 2).unwrap());
    // same high digit: only the first word changes
    assert_ne!(a[0], b[0]);
    assert_eq!(a[1], b[1]);
    // same low digit: the first word is the same
    let c = t.guess_words(&Offset::from_u128(3 + 9 * 2048, 2).unwrap());
    assert_eq!(a[0], c[0]);
    assert_ne!(a[1], c[1]);
}

#[test]
fn distinct_offsets_give_distinct_candidates() {
    let t = PartialSeed::new("abandon *");
    let a = t.guess_seed(&Offset::from_u128(0, 1).unwrap());
    let b = t.guess_seed(&Offset::from_u128(1, 1).unwrap());
    assert_ne!(a, b);
}

#[test]
fn single_word_phrase_has_no_spaces() {
    let t = PartialSeed::new("*");
    let o = Offset::from_u128(2047, 1).unwrap();
    assert_eq!(t.guess_seed(&o), word(2047));
}

#[test]
fn boundary_offset_of_24_wildcards_resolves() {
    // the largest offset of the largest standard space: 2048^24 - 1
    let t = PartialSeed::new("* * * * * * * * * * * * * * * * * * * * * * * *");
    assert_eq!(t.unknown_words(), 24);
    let mut o = Offset::last(24);
    let words = t.guess_words(&o);
    assert_eq!(words.len(), 24);
    for w in &words {
        assert_eq!(w, word(2047));
    }
    // the space ends right after it
    assert!(!o.succ());
}
