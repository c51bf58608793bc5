//! The properties the search engine stands on, each proved from the
//! contracts of the modules it relates: the enumeration is a deterministic
//! bijection over the search space, the first wildcard follows the lowest
//! digit, resumption loses no candidate, and at most one match is recorded.

use vstd::prelude::*;
use crate::enumerate::{
    candidate_phrase, fill_template, lemma_fill_template_index, lemma_fill_template_len,
};
use crate::offset::{
    digits_of, digits_value, lemma_digits_of_value, lemma_digits_value_bound,
    lemma_digits_value_first, lemma_digits_value_injective, lemma_space_size_zero, space_size,
    wf_digits,
};
use crate::search::record_flag;
use crate::template::{
    count_wildcards, lemma_no_wildcards_all_fixed, lemma_wildcard_position, wildcard_position,
};
use crate::wordlist::english_word;

verus! {

/// With no wildcards the search space has exactly one candidate, and it is
/// the template itself, word for word.
pub proof fn lemma_zero_wildcards(t: Seq<Option<Seq<char>>>, d: Seq<u16>)
    requires
        count_wildcards(t) == 0,
        d.len() == 0,
    ensures
        space_size(0) == 1,
        fill_template(t, d).len() == t.len(),
        forall|i: int|
            0 <= i < t.len() ==> (t[i] matches Some(w) && #[trigger] fill_template(t, d)[i] == w),
{
    lemma_space_size_zero();
    lemma_no_wildcards_all_fixed(t);
    lemma_fill_template_len(t, d);
    assert forall|i: int|
        0 <= i < t.len() implies (t[i] matches Some(w) && #[trigger] fill_template(t, d)[i]
        == w) by {
        lemma_fill_template_index(t, d, i);
    }
}

/// Offsets below `2048^k` and digit rows of width `k` name each other
/// uniquely: no two offsets share a row, every offset has one, and every row
/// stays below `2048^k`.
pub proof fn lemma_offset_bijection(k: nat)
    ensures
        forall|d1: Seq<u16>, d2: Seq<u16>|
            #![trigger digits_value(d1), digits_value(d2)]
            wf_digits(d1) && wf_digits(d2) && d1.len() == k && d2.len() == k && digits_value(d1)
                == digits_value(d2) ==> d1 == d2,
        forall|d: Seq<u16>|
            wf_digits(d) && d.len() == k ==> #[trigger] digits_value(d) < space_size(k),
        forall|n: nat|
            n < space_size(k) ==> #[trigger] digits_of(n, k).len() == k && wf_digits(
                digits_of(n, k),
            ) && digits_value(digits_of(n, k)) == n,
{
    assert forall|d1: Seq<u16>, d2: Seq<u16>|
        #![trigger digits_value(d1), digits_value(d2)]
        wf_digits(d1) && wf_digits(d2) && d1.len() == k && d2.len() == k && digits_value(d1)
            == digits_value(d2) implies d1 == d2 by {
        lemma_digits_value_injective(d1, d2);
    }
    assert forall|d: Seq<u16>|
        wf_digits(d) && d.len() == k implies #[trigger] digits_value(d) < space_size(k) by {
        lemma_digits_value_bound(d);
    }
    assert forall|n: nat| n < space_size(k) implies #[trigger] digits_of(n, k).len() == k
        && wf_digits(digits_of(n, k)) && digits_value(digits_of(n, k)) == n by {
        lemma_digits_of_value(n, k);
    }
}

/// The enumerator is injective up to the wordlist: two different digit rows
/// differ at some digit, and their candidates carry exactly the two wordlist
/// entries those digits name, at the same position — so distinct offsets
/// name distinct candidates wherever the wordlist keeps its 2048 words
/// distinct, as the standard English list does.
pub proof fn lemma_enumerate_injective(t: Seq<Option<Seq<char>>>, d1: Seq<u16>, d2: Seq<u16>)
    requires
        wf_digits(d1),
        wf_digits(d2),
        count_wildcards(t) == d1.len(),
        d1.len() == d2.len(),
        !(d1 =~= d2),
    ensures
        exists|j: int|
            0 <= j < d1.len() && (#[trigger] d1[j]) != d2[j]
                && fill_template(t, d1)[wildcard_position(t, j)] == english_word(d1[j] as int)
                && fill_template(t, d2)[wildcard_position(t, j)] == english_word(d2[j] as int),
{
    if forall|j: int| 0 <= j < d1.len() ==> d1[j] == d2[j] {
        assert(d1 =~= d2);
    }
    let j: int = choose|j: int| 0 <= j < d1.len() && d1[j] != d2[j];
    lemma_wildcard_position(t, j);
    lemma_fill_template_index(t, d1, wildcard_position(t, j));
    lemma_fill_template_index(t, d2, wildcard_position(t, j));
    assert(0 <= j < d1.len() && d1[j] != d2[j] && fill_template(t, d1)[wildcard_position(t, j)]
        == english_word(d1[j] as int) && fill_template(t, d2)[wildcard_position(t, j)]
        == english_word(d2[j] as int));
}

/// Enumeration is deterministic: the same template and the same offset
/// value name the same phrase, whichever digit rows carry that value, in
/// one process or across runs.
pub proof fn lemma_enumerate_deterministic(t: Seq<Option<Seq<char>>>, d1: Seq<u16>, d2: Seq<u16>)
    requires
        wf_digits(d1),
        wf_digits(d2),
        d1.len() == d2.len(),
        digits_value(d1) == digits_value(d2),
    ensures
        candidate_phrase(t, d1) == candidate_phrase(t, d2),
{
    lemma_digits_value_injective(d1, d2);
}

/// The digit-ordering law: the offset modulo the wordlist size is the
/// lowest digit, and two offsets that agree above it yield candidates that
/// differ at most at the first wildcard, which follows that digit alone.
pub proof fn lemma_digit_ordering(t: Seq<Option<Seq<char>>>, d1: Seq<u16>, d2: Seq<u16>)
    requires
        wf_digits(d1),
        wf_digits(d2),
        count_wildcards(t) == d1.len(),
        d1.len() == d2.len(),
        d1.len() >= 1,
        d1.skip(1) == d2.skip(1),
    ensures
        digits_value(d1) % 2048 == d1[0],
        digits_value(d2) % 2048 == d2[0],
        forall|i: int|
            0 <= i < t.len() && !(t[i] is None && count_wildcards(t.take(i)) == 0)
                ==> #[trigger] fill_template(t, d1)[i] == fill_template(t, d2)[i],
        forall|i: int|
            0 <= i < t.len() && t[i] is None && count_wildcards(t.take(i)) == 0
                ==> #[trigger] fill_template(t, d1)[i] == english_word(d1[0] as int)
                && fill_template(t, d2)[i] == english_word(d2[0] as int),
{
    lemma_digits_value_first(d1);
    lemma_digits_value_first(d2);
    assert forall|i: int|
        0 <= i < t.len() && !(t[i] is None && count_wildcards(t.take(i)) == 0)
        implies #[trigger] fill_template(t, d1)[i] == fill_template(t, d2)[i] by {
        lemma_fill_template_index(t, d1, i);
        lemma_fill_template_index(t, d2, i);
        if t[i] is None {
            let c = count_wildcards(t.take(i)) as int;
            assert(d1[c] == d1.skip(1)[c - 1]);
            assert(d2[c] == d2.skip(1)[c - 1]);
        }
    }
    assert forall|i: int|
        0 <= i < t.len() && t[i] is None && count_wildcards(t.take(i)) == 0
        implies #[trigger] fill_template(t, d1)[i] == english_word(d1[0] as int)
        && fill_template(t, d2)[i] == english_word(d2[0] as int) by {
        lemma_fill_template_index(t, d1, i);
        lemma_fill_template_index(t, d2, i);
    }
}

/// The offsets a run visits, in order: `start` up to the space size.
pub open spec fn offsets_from(start: nat, end: nat) -> Seq<nat>
    recommends
        start <= end,
{
    Seq::new((end - start) as nat, |i: int| (start + i) as nat)
}

/// Resumability: starting at `m` covers exactly the candidates a run from
/// the beginning has left after its first `m`, in the same order.
pub proof fn lemma_resumability(m: nat, end: nat)
    requires
        m <= end,
    ensures
        offsets_from(m, end) == offsets_from(0, end).skip(m as int),
{
    assert(offsets_from(m, end) =~= offsets_from(0, end).skip(m as int));
}

/// The outcomes of `n` attempts to record a match, one after the other,
/// starting from a given flag: how many were told they were first.
pub open spec fn matches_recorded(found: bool, n: nat) -> nat
    decreases n,
{
    if n == 0 {
        0
    } else {
        (if record_flag(found).1 {
            1nat
        } else {
            0nat
        }) + matches_recorded(record_flag(found).0, (n - 1) as nat)
    }
}

/// Termination race safety: however many tasks report a confirmed balance,
/// exactly one is told it was first — and none once the flag is set.
pub proof fn lemma_exactly_one_match(n: nat)
    requires
        n >= 1,
    ensures
        matches_recorded(false, n) == 1,
        matches_recorded(true, n) == 0,
    decreases n,
{
    if n == 1 {
        assert(matches_recorded(true, 0) == 0);
    } else {
        lemma_exactly_one_match((n - 1) as nat);
    }
}

} // verus!
