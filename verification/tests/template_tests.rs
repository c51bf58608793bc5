use seedsearch::template::PartialSeed;

#[test]
fn parses_fixed_and_wildcard_words() {
    let t = PartialSeed::new("abandon * about");
    assert_eq!(t.words.len(), 3);
    assert_eq!(t.words[0], Some("abandon".to_string()));
    assert_eq!(t.words[1], None);
    assert_eq!(t.words[2], Some("about".to_string()));
}

#[test]
fn counts_unknown_words() {
    let t = PartialSeed::new("zoo * * abandon *");
    assert_eq!(t.words.len(), 5);
    assert_eq!(t.unknown_words(), 3);
}

#[test]
fn no_wildcards_counts_zero() {
    let t = PartialSeed::new("abandon ability able");
    assert_eq!(t.unknown_words(), 0);
}

#[test]
fn empty_phrase_is_one_empty_word() {
    let t = PartialSeed::new("");
    assert_eq!(t.words.len(), 1);
    assert_eq!(t.words[0], Some(String::new()));
    assert_eq!(t.unknown_words(), 0);
}

#[test]
fn star_inside_longer_word_is_fixed() {
    let t = PartialSeed::new("ab*cd *");
    assert_eq!(t.words[0], Some("ab*cd".to_string()));
    assert_eq!(t.words[1], None);
    assert_eq!(t.unknown_words(), 1);
}

#[test]
fn consecutive_spaces_make_empty_words() {
    let t = PartialSeed::new("a  b");
    assert_eq!(t.words.len(), 3);
    assert_eq!(t.words[1], Some(String::new()));
}
