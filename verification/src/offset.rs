//! Candidate offsets: points in the search space `[0, 2048^k)` for a template
//! with `k` unknown words.
//!
//! An offset is kept as its little-endian base-2048 digits, one digit per
//! unknown word, so the full space is representable for any `k` (the value of
//! a 24-digit offset exceeds every fixed-width machine integer).

use vstd::prelude::*;
use vstd::arithmetic::power::{pow, lemma_pow0, lemma_pow_positive};
use vstd::arithmetic::mul::{lemma_mul_inequality, lemma_mul_is_distributive_add};

verus! {

/// Number of candidates for `k` unknown words: `2048^k`.
pub open spec fn space_size(k: nat) -> nat {
    pow(2048, k) as nat
}

/// Every digit below the wordlist size.
pub open spec fn wf_digits(d: Seq<u16>) -> bool {
    forall|i: int| 0 <= i < d.len() ==> d[i] < 2048
}

/// The number whose little-endian base-2048 digits are `d`.
pub open spec fn digits_value(d: Seq<u16>) -> nat
    decreases d.len(),
{
    if d.len() == 0 {
        0
    } else {
        d[0] as nat + 2048 * digits_value(d.skip(1))
    }
}

pub proof fn lemma_space_size_positive(k: nat)
    ensures
        space_size(k) >= 1,
{
    lemma_pow_positive(2048, k);
}

pub proof fn lemma_space_size_zero()
    ensures
        space_size(0) == 1,
{
    lemma_pow0(2048);
}

pub proof fn lemma_space_size_unfold(k: nat)
    requires
        k >= 1,
    ensures
        space_size(k) == 2048 * space_size((k - 1) as nat),
{
    reveal(pow);
    lemma_pow_positive(2048, (k - 1) as nat);
    assert(pow(2048, k) == 2048 * pow(2048, (k - 1) as nat));
}

/// A digit sequence of length `k` names a number below `2048^k`.
pub proof fn lemma_digits_value_bound(d: Seq<u16>)
    requires
        wf_digits(d),
    ensures
        digits_value(d) < space_size(d.len()),
    decreases d.len(),
{
    reveal(pow);
    if d.len() == 0 {
    } else {
        lemma_digits_value_bound(d.skip(1));
        let rest = digits_value(d.skip(1));
        let sub = space_size((d.len() - 1) as nat);
        assert(rest + 1 <= sub);
        assert(2048 * (rest + 1) <= 2048 * sub) by {
            lemma_mul_inequality(rest as int + 1, sub as int, 2048);
        }
        assert(2048 * (rest + 1) == 2048 * rest + 2048) by {
            lemma_mul_is_distributive_add(2048, rest as int, 1);
        }
        lemma_space_size_unfold(d.len() as nat);
    }
}

/// Appending a digit adds its weighted value.
pub proof fn lemma_digits_value_push(d: Seq<u16>, x: u16)
    ensures
        digits_value(d.push(x)) == digits_value(d) + x * space_size(d.len()),
    decreases d.len(),
{
    if d.len() == 0 {
        lemma_space_size_zero();
        assert(d.push(x) =~= seq![x]);
        assert(d.push(x).skip(1) =~= d);
        assert(digits_value(d) == 0);
        assert(digits_value(d.push(x)) == x as nat);
        assert(x * space_size(0) == x);
    } else {
        assert(d.push(x).skip(1) =~= d.skip(1).push(x));
        assert(d.push(x)[0] == d[0]);
        lemma_digits_value_push(d.skip(1), x);
        let rest = digits_value(d.skip(1));
        let w = space_size((d.len() - 1) as nat);
        assert(digits_value(d.push(x)) == d[0] + 2048 * (rest + x * w));
        assert(2048 * (rest + x * w) == 2048 * rest + 2048 * (x * w)) by {
            lemma_mul_is_distributive_add(2048, rest as int, (x * w) as int);
        }
        assert(2048 * (x * w) == x * (2048 * w)) by (nonlinear_arith);
        lemma_space_size_unfold(d.len() as nat);
        assert(space_size(d.len()) == 2048 * w);
        assert(x * space_size(d.len()) == x * (2048 * w));
        assert(digits_value(d) == d[0] + 2048 * rest);
        assert(digits_value(d.push(x)) == d[0] + 2048 * rest + 2048 * (x * w));
    }
}

/// Two equal-length digit sequences with the same value are the same
/// sequence: the offset determines the digits.
pub proof fn lemma_digits_value_injective(d1: Seq<u16>, d2: Seq<u16>)
    requires
        wf_digits(d1),
        wf_digits(d2),
        d1.len() == d2.len(),
        digits_value(d1) == digits_value(d2),
    ensures
        d1 =~= d2,
    decreases d1.len(),
{
    if d1.len() == 0 {
    } else {
        let r1 = digits_value(d1.skip(1));
        let r2 = digits_value(d2.skip(1));
        assert(d1[0] + 2048 * r1 == d2[0] + 2048 * r2);
        assert(d1[0] == d2[0] && r1 == r2) by (nonlinear_arith)
            requires
                d1[0] < 2048,
                d2[0] < 2048,
                d1[0] + 2048 * r1 == d2[0] + 2048 * r2,
        ;
        lemma_digits_value_injective(d1.skip(1), d2.skip(1));
        assert forall|i: int| 0 <= i < d1.len() implies d1[i] == d2[i] by {
            if i > 0 {
                assert(d1[i] == d1.skip(1)[i - 1]);
                assert(d2[i] == d2.skip(1)[i - 1]);
            }
        }
        assert(d1 =~= d2);
    }
}

/// The little-endian base-2048 digits of `n`, padded to length `k`.
pub open spec fn digits_of(n: nat, k: nat) -> Seq<u16>
    decreases k,
{
    if k == 0 {
        Seq::empty()
    } else {
        seq![(n % 2048) as u16] + digits_of(n / 2048, (k - 1) as nat)
    }
}

/// Every offset below `2048^k` is named by a digit sequence of length `k`:
/// the digits determine the offset and the other way round.
pub proof fn lemma_digits_of_value(n: nat, k: nat)
    requires
        n < space_size(k),
    ensures
        digits_of(n, k).len() == k,
        wf_digits(digits_of(n, k)),
        digits_value(digits_of(n, k)) == n,
    decreases k,
{
    reveal(pow);
    if k == 0 {
    } else {
        let d = digits_of(n, k);
        lemma_space_size_unfold(k);
        assert(n / 2048 < space_size((k - 1) as nat)) by (nonlinear_arith)
            requires
                n < 2048 * space_size((k - 1) as nat),
        ;
        lemma_digits_of_value(n / 2048, (k - 1) as nat);
        assert(d.skip(1) =~= digits_of(n / 2048, (k - 1) as nat));
        assert(d[0] == n % 2048);
        assert(n % 2048 + 2048 * (n / 2048) == n) by (nonlinear_arith);
    }
}

/// The value modulo the wordlist size is the lowest digit.
pub proof fn lemma_digits_value_first(d: Seq<u16>)
    requires
        wf_digits(d),
        d.len() >= 1,
    ensures
        digits_value(d) % 2048 == d[0],
{
    let r = digits_value(d.skip(1));
    assert((d[0] + 2048 * r) % 2048 == d[0]) by (nonlinear_arith)
        requires
            d[0] < 2048,
            r >= 0,
    ;
}

/// One point of the search space for a template with `k` unknown words:
/// an offset in `[0, 2048^k)`, held as `k` little-endian base-2048 digits.
pub struct Offset {
    pub digits: Vec<u16>,
}

impl Offset {
    /// Each digit indexes the wordlist.
    pub open spec fn wf(&self) -> bool {
        wf_digits(self.digits@)
    }

    /// The number of unknown words this offset resolves.
    pub open spec fn width(&self) -> nat {
        self.digits@.len()
    }

    /// The offset as a mathematical integer.
    pub open spec fn value(&self) -> nat {
        digits_value(self.digits@)
    }

    /// The first offset of a space with `k` unknown words.
    pub fn zero(k: usize) -> (r: Offset)
        ensures
            r.wf(),
            r.width() == k,
            r.value() == 0,
    {
        let mut digits: Vec<u16> = Vec::new();
        let mut i: usize = 0;
        while i < k
            invariant
                i <= k,
                digits@.len() == i,
                wf_digits(digits@),
                digits_value(digits@) == 0,
            decreases k - i,
        {
            proof {
                lemma_digits_value_push(digits@, 0);
            }
            digits.push(0);
            i = i + 1;
        }
        Offset { digits }
    }

    /// The last offset of a space with `k` unknown words: `2048^k - 1`.
    pub fn last(k: usize) -> (r: Offset)
        ensures
            r.wf(),
            r.width() == k,
            r.value() == space_size(k as nat) - 1,
    {
        proof {
            lemma_space_size_zero();
        }
        let mut digits: Vec<u16> = Vec::new();
        let mut i: usize = 0;
        while i < k
            invariant
                i <= k,
                digits@.len() == i,
                wf_digits(digits@),
                digits_value(digits@) == space_size(i as nat) - 1,
            decreases k - i,
        {
            proof {
                lemma_digits_value_push(digits@, 2047);
                lemma_space_size_positive(i as nat);
                lemma_space_size_unfold((i + 1) as nat);
                assert(2047 * space_size(i as nat) + space_size(i as nat)
                    == 2048 * space_size(i as nat)) by (nonlinear_arith);
            }
            digits.push(2047);
            i = i + 1;
        }
        Offset { digits }
    }

    /// Read a resume point given as a machine integer; `None` when it lies
    /// at or past the end of the space.
    pub fn from_u128(o: u128, k: usize) -> (r: Option<Offset>)
        ensures
            r is Some <==> o < space_size(k as nat),
            r matches Some(off) ==> off.wf() && off.width() == k && off.value() == o,
    {
        proof {
            lemma_space_size_zero();
        }
        let mut rem: u128 = o;
        let mut digits: Vec<u16> = Vec::new();
        let mut i: usize = 0;
        while i < k
            invariant
                i <= k,
                digits@.len() == i,
                wf_digits(digits@),
                o as nat == digits_value(digits@) + rem * space_size(i as nat),
            decreases k - i,
        {
            let d: u16 = (rem % 2048) as u16;
            proof {
                lemma_digits_value_push(digits@, d);
                lemma_space_size_unfold((i + 1) as nat);
                let w = space_size(i as nat);
                assert(rem as nat * w == d as nat * w + (rem as nat / 2048) * (2048 * w))
                    by (nonlinear_arith)
                    requires
                        d == rem as nat % 2048,
                        w >= 0,
                ;
                lemma_space_size_positive(i as nat);
            }
            digits.push(d);
            rem = rem / 2048;
            i = i + 1;
        }
        if rem == 0 {
            proof {
                lemma_digits_value_bound(digits@);
            }
            Some(Offset { digits })
        } else {
            proof {
                lemma_space_size_positive(k as nat);
                lemma_mul_inequality(1, rem as int, space_size(k as nat) as int);
            }
            None
        }
    }

    /// An identical, independent copy of the offset.
    pub fn duplicate(&self) -> (r: Offset)
        ensures
            r.digits@ == self.digits@,
    {
        let mut digits: Vec<u16> = Vec::new();
        let mut i: usize = 0;
        while i < self.digits.len()
            invariant
                i <= self.digits@.len(),
                digits@ =~= self.digits@.subrange(0, i as int),
            decreases self.digits@.len() - i,
        {
            digits.push(self.digits[i]);
            i = i + 1;
        }
        assert(digits@ =~= self.digits@);
        Offset { digits }
    }

    /// Step to the next offset. Returns `false` on the last offset of the
    /// space, wrapping back to zero; returns `true` otherwise, having
    /// advanced the value by one.
    pub fn succ(&mut self) -> (advanced: bool)
        requires
            old(self).wf(),
        ensures
            final(self).wf(),
            final(self).width() == old(self).width(),
            advanced <==> old(self).value() + 1 < space_size(old(self).width()),
            advanced ==> final(self).value() == old(self).value() + 1,
            !advanced ==> old(self).value() == space_size(old(self).width()) - 1
                && final(self).value() == 0,
    {
        let n = self.digits.len();
        let ghost d = self.digits@;
        let mut out: Vec<u16> = Vec::new();
        let mut i: usize = 0;
        while i < n && self.digits[i] == 2047
            invariant
                i <= n,
                n == d.len(),
                d == self.digits@,
                wf_digits(d),
                out@.len() == i,
                forall|j: int| 0 <= j < i ==> out@[j] == 0,
                forall|j: int| 0 <= j < i ==> d[j] == 2047,
            decreases n - i,
        {
            out.push(0);
            i = i + 1;
        }
        if i == n {
            proof {
                lemma_carry_all(d);
                lemma_zeros_value(out@);
            }
            self.digits = out;
            false
        } else {
            let bumped = self.digits[i] + 1;
            out.push(bumped);
            let mut j: usize = i + 1;
            while j < n
                invariant
                    i < j <= n,
                    n == d.len(),
                    d == self.digits@,
                    out@.len() == j,
                    forall|m: int| 0 <= m < i ==> out@[m] == 0,
                    out@[i as int] == d[i as int] + 1,
                    forall|m: int| i < m < j ==> out@[m] == d[m],
                decreases n - j,
            {
                out.push(self.digits[j]);
                j = j + 1;
            }
            proof {
                lemma_carry_step(d, out@, i as int);
                lemma_digits_value_bound(out@);
            }
            self.digits = out;
            true
        }
    }
}

/// A run of zeros names the offset zero.
proof fn lemma_zeros_value(d: Seq<u16>)
    requires
        forall|j: int| 0 <= j < d.len() ==> d[j] == 0,
    ensures
        digits_value(d) == 0,
    decreases d.len(),
{
    if d.len() > 0 {
        lemma_zeros_value(d.skip(1));
    }
}

/// All digits at the top: the offset is the last of the space.
proof fn lemma_carry_all(d: Seq<u16>)
    requires
        forall|j: int| 0 <= j < d.len() ==> d[j] == 2047,
    ensures
        digits_value(d) == space_size(d.len()) - 1,
    decreases d.len(),
{
    reveal(pow);
    if d.len() == 0 {
    } else {
        lemma_carry_all(d.skip(1));
        lemma_space_size_unfold(d.len() as nat);
        let s = space_size((d.len() - 1) as nat);
        lemma_space_size_positive((d.len() - 1) as nat);
        assert(2047 + 2048 * (s - 1) == 2048 * s - 1) by (nonlinear_arith);
    }
}

/// Zeroing a run of top digits and bumping the next one adds one.
proof fn lemma_carry_step(d: Seq<u16>, e: Seq<u16>, i: int)
    requires
        wf_digits(d),
        d.len() == e.len(),
        0 <= i < d.len(),
        forall|j: int| 0 <= j < i ==> d[j] == 2047,
        forall|j: int| 0 <= j < i ==> e[j] == 0,
        d[i] < 2047,
        e[i] == d[i] + 1,
        forall|j: int| i < j < d.len() ==> e[j] == d[j],
    ensures
        wf_digits(e),
        digits_value(e) == digits_value(d) + 1,
    decreases i,
{
    if i == 0 {
        assert(d.skip(1) =~= e.skip(1));
    } else {
        lemma_carry_step(d.skip(1), e.skip(1), i - 1);
        assert(digits_value(e) == 0 + 2048 * (digits_value(d.skip(1)) + 1));
        assert(2048 * (digits_value(d.skip(1)) + 1)
            == 2048 * digits_value(d.skip(1)) + 2048) by (nonlinear_arith);
        assert(digits_value(d) == 2047 + 2048 * digits_value(d.skip(1)));
    }
}

} // verus!
