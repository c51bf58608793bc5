//! The enumerator: the deterministic mapping from a candidate offset to a
//! fully resolved phrase. Fixed slots are copied verbatim; the i-th wildcard
//! in template order is resolved by the i-th little-endian base-2048 digit of
//! the offset, so the first wildcard follows the lowest-order digit.

use vstd::prelude::*;
use crate::offset::Offset;
use crate::template::{count_wildcards, lemma_count_wildcards_cons, PartialSeed};
use crate::wordlist::{english_word, word_at};

verus! {

/// The words of the candidate at digits `d`: fixed slots kept, the i-th
/// wildcard resolved to the wordlist entry named by `d[i]`.
pub open spec fn fill_template(t: Seq<Option<Seq<char>>>, d: Seq<u16>) -> Seq<Seq<char>>
    decreases t.len(),
{
    if t.len() == 0 {
        Seq::empty()
    } else {
        match t[0] {
            Some(w) => seq![w] + fill_template(t.skip(1), d),
            None => seq![english_word(d[0] as int)] + fill_template(t.skip(1), d.skip(1)),
        }
    }
}

pub proof fn lemma_fill_template_len(t: Seq<Option<Seq<char>>>, d: Seq<u16>)
    ensures
        fill_template(t, d).len() == t.len(),
    decreases t.len(),
{
    if t.len() > 0 {
        match t[0] {
            Some(_) => lemma_fill_template_len(t.skip(1), d),
            None => lemma_fill_template_len(t.skip(1), d.skip(1)),
        }
    }
}

/// Where each candidate word comes from: a fixed slot keeps its own word,
/// and the j-th wildcard in template order takes the wordlist entry named by
/// the j-th digit.
pub proof fn lemma_fill_template_index(t: Seq<Option<Seq<char>>>, d: Seq<u16>, i: int)
    requires
        count_wildcards(t) == d.len(),
        0 <= i < t.len(),
    ensures
        fill_template(t, d).len() == t.len(),
        t[i] matches Some(w) ==> fill_template(t, d)[i] == w,
        t[i] is None ==> count_wildcards(t.take(i)) < d.len() && fill_template(t, d)[i]
            == english_word(d[count_wildcards(t.take(i)) as int] as int),
    decreases t.len(),
{
    lemma_fill_template_len(t, d);
    if i == 0 {
        assert(t.take(0) =~= Seq::<Option<Seq<char>>>::empty());
    } else {
        assert(t.skip(1)[i - 1] == t[i]);
        assert(t.take(i) =~= seq![t[0]] + t.skip(1).take(i - 1));
        lemma_count_wildcards_cons(t[0], t.skip(1).take(i - 1));
        match t[0] {
            Some(_) => {
                lemma_fill_template_index(t.skip(1), d, i - 1);
                assert(fill_template(t, d)[i] == fill_template(t.skip(1), d)[i - 1]);
            }
            None => {
                lemma_fill_template_index(t.skip(1), d.skip(1), i - 1);
                assert(fill_template(t, d)[i] == fill_template(t.skip(1), d.skip(1))[i - 1]);
                if t[i] is None {
                    let c = count_wildcards(t.skip(1).take(i - 1)) as int;
                    assert(d.skip(1)[c] == d[c + 1]);
                }
            }
        }
    }
}

/// The tail of a joined phrase: a space before each further word.
pub open spec fn rest_join(ws: Seq<Seq<char>>) -> Seq<char>
    decreases ws.len(),
{
    if ws.len() == 0 {
        Seq::empty()
    } else {
        seq![' '] + ws[0] + rest_join(ws.skip(1))
    }
}

/// The words of `ws` joined with single spaces.
pub open spec fn join_words(ws: Seq<Seq<char>>) -> Seq<char> {
    if ws.len() == 0 {
        Seq::empty()
    } else {
        ws[0] + rest_join(ws.skip(1))
    }
}

/// The full phrase of the candidate at digits `d` of template `t`.
pub open spec fn candidate_phrase(t: Seq<Option<Seq<char>>>, d: Seq<u16>) -> Seq<char> {
    join_words(fill_template(t, d))
}

/// Join words with single spaces, as the phrase of a candidate is written.
pub fn join_phrase(words: &Vec<String>) -> (r: String)
    ensures
        r@ == join_words(words.deep_view()),
{
    let ghost dv = words.deep_view();
    let mut r = String::new();
    if words.len() == 0 {
        return r;
    }
    r.append(words[0].as_str());
    let mut i: usize = 1;
    while i < words.len()
        invariant
            1 <= i <= dv.len(),
            dv == words.deep_view(),
            dv.len() == words@.len(),
            join_words(dv) == r@ + rest_join(dv.skip(i as int)),
        decreases dv.len() - i,
    {
        proof {
            reveal_strlit(" ");
            assert(" "@ =~= seq![' ']);
            assert(dv.skip(i as int)[0] == dv[i as int]);
            assert(dv.skip(i as int).skip(1) =~= dv.skip(i + 1));
        }
        r.append(" ");
        r.append(words[i].as_str());
        i = i + 1;
    }
    proof {
        assert(dv.skip(dv.len() as int) =~= Seq::<Seq<char>>::empty());
        assert(r@ + Seq::<char>::empty() =~= r@);
    }
    r
}

impl PartialSeed {
    /// The words of the candidate that `off` names: a pure function of the
    /// template and the offset, the same on every run.
    pub fn guess_words(&self, off: &Offset) -> (r: Vec<String>)
        requires
            off.wf(),
            off.width() == count_wildcards(self@),
        ensures
            r.deep_view() == fill_template(self@, off.digits@),
            r@.len() == self@.len(),
    {
        let ghost t = self@;
        let ghost d = off.digits@;
        let n = self.words.len();
        let dn = off.digits.len();
        let mut r: Vec<String> = Vec::new();
        let mut i: usize = 0;
        let mut w: usize = 0;
        proof {
            assert(t.skip(0) =~= t);
            assert(d.skip(0) =~= d);
            assert(r.deep_view() =~= Seq::<Seq<char>>::empty());
            assert(r.deep_view() + fill_template(t, d) =~= fill_template(t, d));
        }
        while i < n
            invariant
                i <= n,
                w <= d.len(),
                d.len() == dn,
                n == self.words@.len(),
                t == self@,
                d == off.digits@,
                off.wf(),
                count_wildcards(t.skip(i as int)) == d.len() - w,
                fill_template(t, d) == r.deep_view() + fill_template(
                    t.skip(i as int),
                    d.skip(w as int),
                ),
            decreases n - i,
        {
            let ghost before = r.deep_view();
            proof {
                assert(t.skip(i as int)[0] == t[i as int]);
                assert(t.skip(i as int).skip(1) =~= t.skip(i + 1));
            }
            match &self.words[i] {
                Some(word) => {
                    proof {
                        assert(t[i as int] == Some(word@));
                    }
                    r.push(word.clone());
                    proof {
                        assert(r.deep_view() =~= before.push(word@));
                        assert(before.push(word@) =~= before + seq![word@]);
                    }
                }
                None => {
                    proof {
                        assert(t[i as int] is None);
                        assert(count_wildcards(t.skip(i as int)) >= 1);
                        assert(d.skip(w as int)[0] == d[w as int]);
                        assert(d.skip(w as int).skip(1) =~= d.skip(w + 1));
                    }
                    let word = word_at(off.digits[w]);
                    r.push(word);
                    proof {
                        assert(r.deep_view() =~= before.push(english_word(d[w as int] as int)));
                        assert(before.push(english_word(d[w as int] as int)) =~= before + seq![
                            english_word(d[w as int] as int),
                        ]);
                    }
                    w = w + 1;
                }
            }
            i = i + 1;
        }
        proof {
            assert(t.skip(n as int) =~= Seq::<Option<Seq<char>>>::empty());
            assert(fill_template(t.skip(n as int), d.skip(w as int)) =~= Seq::<Seq<char>>::empty());
            assert(r.deep_view() + Seq::<Seq<char>>::empty() =~= r.deep_view());
            lemma_fill_template_len(t, d);
        }
        r
    }

    /// The candidate phrase that `off` names, words joined with spaces.
    /// Identical arguments always yield the identical phrase.
    pub fn guess_seed(&self, off: &Offset) -> (r: String)
        requires
            off.wf(),
            off.width() == count_wildcards(self@),
        ensures
            r@ == candidate_phrase(self@, off.digits@),
    {
        let words = self.guess_words(off);
        join_phrase(&words)
    }
}

} // verus!
