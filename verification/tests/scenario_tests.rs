use seedsearch::derivation::{derivation_path, wallet_descriptor};
use seedsearch::offset::Offset;
use seedsearch::search::SearchState;
use seedsearch::template::PartialSeed;

const RECOVERED: &str = "abandon abandon abandon abandon abandon abandon abandon abandon abandon abandon abandon about";

/// A stub balance service: a non-zero confirmed balance only at one offset.
fn stub_balance(offset_digit: u16, funded: u16) -> u64 {
    if offset_digit == funded {
        42
    } else {
        0
    }
}

#[test]
fn end_to_end_search_finds_the_funded_phrase_and_stops() {
    let t = PartialSeed::new(
        "abandon abandon abandon abandon abandon abandon abandon abandon abandon abandon abandon *",
    );
    let k = t.unknown_words();
    assert_eq!(k, 1);
    let start = Offset::from_u128(0, k).unwrap();
    let mut state = SearchState::new(start, 4);
    let mut written: Vec<String> = Vec::new();

    while !state.is_done() {
        let off = match state.dispatch() {
            Some(off) => off,
            None => break,
        };
        match t.evaluate(&off) {
            Some(v) => {
                let balance = stub_balance(off.digits[0], 3);
                if state.on_balance(balance) {
                    written.push(v.phrase);
                }
            }
            None => state.complete(),
        }
    }

    assert_eq!(written, vec![RECOVERED.to_string()]);
    // nothing past the funded offset was handed out
    assert_eq!(state.next.digits, vec![4]);
}

#[test]
fn two_funded_offsets_record_exactly_one_phrase() {
    // a space where two distinct candidates would be confirmed funded:
    // whichever completes first wins and the other is discarded
    let t = PartialSeed::new("*");
    let mut state = SearchState::new(Offset::zero(1), 2);
    let mut written: Vec<String> = Vec::new();
    while !state.is_done() {
        let off = match state.dispatch() {
            Some(off) => off,
            None => break,
        };
        let digit = off.digits[0];
        let balance = if digit == 7 || digit == 9 { 1 } else { 0 };
        if state.on_balance(balance) {
            written.push(t.guess_seed(&off));
        }
    }
    assert_eq!(written.len(), 1);
    assert_eq!(written[0], bip39::Language::English.word_list()[7]);
}

#[test]
fn derivation_path_follows_the_network() {
    assert_eq!(derivation_path(false), vec![84, 0, 0]);
    assert_eq!(derivation_path(true), vec![84, 1, 0]);
}

#[test]
fn descriptors_wrap_the_derived_key() {
    assert_eq!(wallet_descriptor("xprv123", false), "wpkh(xprv123/0/*)");
    assert_eq!(wallet_descriptor("xprv123", true), "wpkh(xprv123/1/*)");
}
