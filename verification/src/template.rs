//! Partially known seed phrases: an ordered sequence of slots, each a fixed
//! word or a wildcard written `*`, read from the space-separated phrase the
//! operator supplies.

use vstd::prelude::*;

verus! {

/// The words of `s` split on single spaces, as `str::split(' ')` yields
/// them: an empty input is one empty word, and every space ends a word.
pub open spec fn split_words(s: Seq<char>) -> Seq<Seq<char>>
    decreases s.len(),
{
    if s.len() == 0 {
        seq![Seq::<char>::empty()]
    } else if s[0] == ' ' {
        seq![Seq::<char>::empty()] + split_words(s.skip(1))
    } else {
        let rest = split_words(s.skip(1));
        seq![seq![s[0]] + rest[0]] + rest.skip(1)
    }
}

/// A phrase without spaces is one word.
pub proof fn lemma_split_no_space(s: Seq<char>)
    requires
        forall|j: int| 0 <= j < s.len() ==> s[j] != ' ',
    ensures
        split_words(s) == seq![s],
    decreases s.len(),
{
    if s.len() == 0 {
        assert(s =~= Seq::<char>::empty());
        assert(split_words(s) =~= seq![s]);
    } else {
        lemma_split_no_space(s.skip(1));
        let rest = split_words(s.skip(1));
        assert(rest[0] == s.skip(1));
        assert(seq![s[0]] + s.skip(1) =~= s);
        assert(rest.skip(1) =~= Seq::<Seq<char>>::empty());
        assert(split_words(s) =~= seq![s]);
    }
}

/// Splitting at the first space: the prefix is the first word, the rest
/// splits on its own.
pub proof fn lemma_split_at_space(s: Seq<char>, p: int)
    requires
        0 <= p < s.len(),
        s[p] == ' ',
        forall|j: int| 0 <= j < p ==> s[j] != ' ',
    ensures
        split_words(s) == seq![s.take(p)] + split_words(s.skip(p + 1)),
    decreases p,
{
    if p == 0 {
        assert(s.take(0) =~= Seq::<char>::empty());
        assert(split_words(s) =~= seq![s.take(0)] + split_words(s.skip(1)));
    } else {
        assert(s.skip(1)[p - 1] == s[p]);
        lemma_split_at_space(s.skip(1), p - 1);
        let rest = split_words(s.skip(1));
        assert(rest[0] == s.skip(1).take(p - 1));
        assert(seq![s[0]] + s.skip(1).take(p - 1) =~= s.take(p));
        assert(s.skip(1).skip(p) =~= s.skip(p + 1));
        assert(rest.skip(1) =~= split_words(s.skip(p + 1)));
        assert(split_words(s) =~= seq![s.take(p)] + split_words(s.skip(p + 1)));
    }
}

/// The words of `s`, one `String` each.
pub fn split_phrase(s: &str) -> (r: Vec<String>)
    ensures
        r.deep_view() == split_words(s@),
{
    let n = s.unicode_len();
    let mut words: Vec<String> = Vec::new();
    proof {
        assert(s@.skip(0) =~= s@);
        assert(words.deep_view() =~= Seq::<Seq<char>>::empty());
        assert(words.deep_view() + split_words(s@) =~= split_words(s@));
    }
    let mut start: usize = 0;
    let mut i: usize = 0;
    while i < n
        invariant
            start <= i <= n,
            n == s@.len(),
            forall|j: int| start <= j < i ==> s@[j] != ' ',
            split_words(s@) == words.deep_view() + split_words(s@.skip(start as int)),
        decreases n - i,
    {
        let c = s.get_char(i);
        if c == ' ' {
            let w = s.substring_char(start, i);
            proof {
                let tail = s@.skip(start as int);
                assert(forall|j: int| 0 <= j < i - start ==> tail[j] == s@[j + start]);
                lemma_split_at_space(tail, i - start);
                assert(tail.take(i - start) =~= s@.subrange(start as int, i as int));
                assert(tail.skip(i - start + 1) =~= s@.skip(i + 1));
            }
            let owned = w.to_owned();
            let ghost before = words.deep_view();
            words.push(owned);
            proof {
                assert(words.deep_view() =~= before + seq![w@]);
                assert(split_words(s@) == words.deep_view() + split_words(s@.skip(i + 1)));
            }
            start = i + 1;
        }
        i = i + 1;
    }
    let w = s.substring_char(start, n);
    proof {
        let tail = s@.skip(start as int);
        assert(forall|j: int| 0 <= j < tail.len() ==> tail[j] == s@[j + start]);
        lemma_split_no_space(tail);
        assert(tail =~= s@.subrange(start as int, n as int));
    }
    let owned = w.to_owned();
    let ghost before = words.deep_view();
    words.push(owned);
    proof {
        assert(words.deep_view() =~= before + seq![w@]);
        assert(words.deep_view() =~= split_words(s@));
    }
    words
}

/// What one written word means: `*` is an unknown slot, anything else is
/// that fixed word.
pub open spec fn word_slot(w: Seq<char>) -> Option<Seq<char>> {
    if w == seq!['*'] {
        None
    } else {
        Some(w)
    }
}

/// The template that a phrase denotes, slot by slot.
pub open spec fn parse_template(s: Seq<char>) -> Seq<Option<Seq<char>>> {
    split_words(s).map_values(|w: Seq<char>| word_slot(w))
}

/// How many slots of `t` are wildcards.
pub open spec fn count_wildcards(t: Seq<Option<Seq<char>>>) -> nat
    decreases t.len(),
{
    if t.len() == 0 {
        0
    } else {
        (if t[0] is None {
            1nat
        } else {
            0nat
        }) + count_wildcards(t.skip(1))
    }
}

pub proof fn lemma_count_wildcards_cons(x: Option<Seq<char>>, s: Seq<Option<Seq<char>>>)
    ensures
        count_wildcards(seq![x] + s) == (if x is None {
            1nat
        } else {
            0nat
        }) + count_wildcards(s),
{
    assert((seq![x] + s)[0] == x);
    assert((seq![x] + s).skip(1) =~= s);
}

/// A template without wildcards is fixed words throughout.
pub proof fn lemma_no_wildcards_all_fixed(t: Seq<Option<Seq<char>>>)
    requires
        count_wildcards(t) == 0,
    ensures
        forall|i: int| 0 <= i < t.len() ==> t[i] is Some,
    decreases t.len(),
{
    if t.len() > 0 {
        lemma_no_wildcards_all_fixed(t.skip(1));
        assert forall|i: int| 0 <= i < t.len() implies t[i] is Some by {
            if i > 0 {
                assert(t[i] == t.skip(1)[i - 1]);
            }
        }
    }
}

/// The slot index of the j-th wildcard of `t`, in template order.
pub open spec fn wildcard_position(t: Seq<Option<Seq<char>>>, j: int) -> int
    decreases t.len(),
{
    if t.len() == 0 {
        0
    } else if t[0] is None {
        if j == 0 {
            0
        } else {
            1 + wildcard_position(t.skip(1), j - 1)
        }
    } else {
        1 + wildcard_position(t.skip(1), j)
    }
}

/// The j-th wildcard stands at a wildcard slot with exactly j wildcards
/// before it.
pub proof fn lemma_wildcard_position(t: Seq<Option<Seq<char>>>, j: int)
    requires
        0 <= j < count_wildcards(t),
    ensures
        0 <= wildcard_position(t, j) < t.len(),
        t[wildcard_position(t, j)] is None,
        count_wildcards(t.take(wildcard_position(t, j))) == j,
    decreases t.len(),
{
    if t.len() > 0 {
        if t[0] is None && j == 0 {
            assert(t.take(0) =~= Seq::<Option<Seq<char>>>::empty());
        } else {
            let p: int;
            if t[0] is None {
                lemma_wildcard_position(t.skip(1), j - 1);
                p = wildcard_position(t.skip(1), j - 1);
            } else {
                lemma_wildcard_position(t.skip(1), j);
                p = wildcard_position(t.skip(1), j);
            }
            assert(t[1 + p] == t.skip(1)[p]);
            assert(t.take(1 + p) =~= seq![t[0]] + t.skip(1).take(p));
            lemma_count_wildcards_cons(t[0], t.skip(1).take(p));
        }
    }
}

/// A partially known seed phrase: one slot per word, `None` where the word
/// is unknown.
pub struct PartialSeed {
    pub words: Vec<Option<String>>,
}

impl View for PartialSeed {
    type V = Seq<Option<Seq<char>>>;

    open spec fn view(&self) -> Seq<Option<Seq<char>>> {
        self.words.deep_view()
    }
}

impl PartialSeed {
    /// Read a template from a phrase: words split on spaces, `*` marking
    /// each unknown word.
    pub fn new(seed: &str) -> (r: Self)
        ensures
            r@ == parse_template(seed@),
    {
        let raw = split_phrase(seed);
        let mut words: Vec<Option<String>> = Vec::new();
        let mut i: usize = 0;
        while i < raw.len()
            invariant
                i <= raw@.len(),
                raw.deep_view() == split_words(seed@),
                words.deep_view() =~= raw.deep_view().take(i as int).map_values(
                    |w: Seq<char>| word_slot(w),
                ),
            decreases raw@.len() - i,
        {
            let w = &raw[i];
            let ghost before = words.deep_view();
            if w.as_str().unicode_len() == 1 && w.as_str().get_char(0) == '*' {
                proof {
                    assert(w@ =~= seq!['*']);
                }
                words.push(None);
            } else {
                proof {
                    assert(w@ != seq!['*']) by {
                        if w@ == seq!['*'] {
                            assert(w@.len() == 1 && w@[0] == '*');
                        }
                    }
                }
                words.push(Some(w.clone()));
            }
            proof {
                assert(words.deep_view() =~= before.push(word_slot(raw.deep_view()[i as int])));
                assert(raw.deep_view().take(i + 1) =~= raw.deep_view().take(i as int).push(
                    raw.deep_view()[i as int],
                ));
            }
            i = i + 1;
        }
        proof {
            assert(raw.deep_view().take(raw@.len() as int) =~= raw.deep_view());
        }
        PartialSeed { words }
    }

    /// The number of unknown words: the wildcard count of the template.
    pub fn unknown_words(&self) -> (r: usize)
        ensures
            r == count_wildcards(self@),
    {
        let n = self.words.len();
        proof {
            assert(self@.skip(0) =~= self@);
        }
        let mut r: usize = 0;
        let mut i: usize = 0;
        while i < n
            invariant
                i <= n,
                n == self.words@.len(),
                r <= i,
                count_wildcards(self@) == r + count_wildcards(self@.skip(i as int)),
            decreases n - i,
        {
            proof {
                assert(self@.skip(i as int).len() == n - i);
                assert(self@.skip(i as int)[0] == self@[i as int]);
                assert(self@.skip(i as int).skip(1) =~= self@.skip(i + 1));
            }
            if self.words[i].is_none() {
                proof {
                    assert(self@[i as int] is None);
                }
                r = r + 1;
            } else {
                proof {
                    assert(self@[i as int] is Some);
                }
            }
            i = i + 1;
        }
        proof {
            assert(self@.skip(n as int) =~= Seq::<Option<Seq<char>>>::empty());
        }
        r
    }

    /// The number of word slots of the template.
    pub fn len(&self) -> (r: usize)
        ensures
            r == self@.len(),
    {
        self.words.len()
    }
}

} // verus!
