//! Positional notation: numbers as sequences of digits, most significant
//! first. Room codes are a change of base, and this is what makes that exact.

use vstd::prelude::*;
use vstd::arithmetic::power2::*;
use vstd::arithmetic::mul::*;
use vstd::arithmetic::div_mod::*;

verus! {

/// The number that `s` writes in `base`.
pub open spec fn number(s: Seq<nat>, base: nat) -> nat
    decreases s.len(),
{
    if s.len() == 0 {
        0
    } else {
        number(s.drop_last(), base) * base + s.last()
    }
}

/// The last `len` digits of `v` in `base`.
pub open spec fn digits(v: nat, base: nat, len: nat) -> Seq<nat>
    decreases len,
{
    if len == 0 {
        Seq::empty()
    } else {
        digits(v / base, base, (len - 1) as nat).push(v % base)
    }
}

/// Every digit of `s` is a digit in `base`.
pub open spec fn in_base(s: Seq<nat>, base: nat) -> bool {
    forall|i: int| 0 <= i < s.len() ==> #[trigger] s[i] < base
}

/// The number that a sequence of bytes writes, big-endian.
pub open spec fn byte_digits(s: Seq<u8>) -> Seq<nat> {
    Seq::new(s.len(), |i: int| s[i] as nat)
}

pub open spec fn as_bytes(s: Seq<nat>) -> Seq<u8> {
    Seq::new(s.len(), |i: int| s[i] as u8)
}

pub proof fn digits_len(v: nat, base: nat, len: nat)
    requires
        base > 0,
    ensures
        digits(v, base, len).len() == len,
    decreases len,
{
    if len > 0 {
        digits_len(v / base, base, (len - 1) as nat);
    }
}

pub proof fn digits_in_base(v: nat, base: nat, len: nat)
    requires
        base > 0,
    ensures
        in_base(digits(v, base, len), base),
    decreases len,
{
    if len > 0 {
        digits_in_base(v / base, base, (len - 1) as nat);
        digits_len(v / base, base, (len - 1) as nat);
        lemma_mod_bound(v as int, base as int);
        let d = digits(v / base, base, (len - 1) as nat);
        assert forall|i: int| 0 <= i < digits(v, base, len).len() implies #[trigger] digits(
            v,
            base,
            len,
        )[i] < base by {
            if i < d.len() {
                assert(d[i] < base);
            }
        }
    }
}

/// Writing down the number of a digit sequence gives the sequence back.
pub proof fn digits_of_number(s: Seq<nat>, base: nat)
    requires
        in_base(s, base),
    ensures
        digits(number(s, base), base, s.len()) == s,
    decreases s.len(),
{
    if s.len() == 0 {
        assert(s =~= Seq::<nat>::empty());
    } else {
        let t = s.drop_last();
        assert forall|i: int| 0 <= i < t.len() implies #[trigger] t[i] < base by {
            assert(s[i] < base);
        }
        digits_of_number(t, base);
        let n = number(t, base);
        let l = s.last();
        assert(s[s.len() - 1] < base);
        assert((n * base + l) / base == n && (n * base + l) % base == l) by {
            lemma_fundamental_div_mod_converse((n * base + l) as int, base as int, n as int, l as int);
        }
        assert(s =~= t.push(l));
    }
}

/// A number below `2^(bits * len)` is the number of its digits in base `2^bits`.
pub proof fn number_of_digits(v: nat, bits: nat, len: nat)
    requires
        v < pow2(bits * len),
        bits > 0,
    ensures
        number(digits(v, pow2(bits), len), pow2(bits)) == v,
    decreases len,
{
    lemma_pow2_pos(bits);
    let base = pow2(bits);
    if len == 0 {
        assert(bits * 0 == 0);
        lemma2_to64();
    } else {
        let m = (len - 1) as nat;
        assert(bits * len == bits * m + bits) by (nonlinear_arith)
            requires
                len == m + 1,
        ;
        lemma_pow2_adds(bits * m, bits);
        assert(v / base < pow2(bits * m)) by {
            lemma_mul_is_commutative(base as int, pow2(bits * m) as int);
            lemma_multiply_divide_lt(v as int, base as int, pow2(bits * m) as int);
        }
        number_of_digits(v / base, bits, m);
        assert(digits(v, base, len).drop_last() =~= digits(v / base, base, m));
        lemma_fundamental_div_mod(v as int, base as int);
        assert((v / base) * base + v % base == v) by (nonlinear_arith)
            requires
                v == base * (v / base) + v % base,
        ;
    }
}

/// A sequence of `len` digits in base `2^bits` writes less than `2^(bits * len)`.
pub proof fn number_bound(s: Seq<nat>, bits: nat)
    requires
        in_base(s, pow2(bits)),
    ensures
        number(s, pow2(bits)) < pow2(bits * s.len()),
    decreases s.len(),
{
    lemma_pow2_pos(bits);
    if s.len() == 0 {
        assert(bits * 0 == 0);
        lemma2_to64();
    } else {
        let t = s.drop_last();
        assert forall|i: int| 0 <= i < t.len() implies #[trigger] t[i] < pow2(bits) by {
            assert(s[i] < pow2(bits));
        }
        number_bound(t, bits);
        assert(s[s.len() - 1] < pow2(bits));
        assert(bits * s.len() == bits * t.len() + bits) by (nonlinear_arith)
            requires
                s.len() == t.len() + 1,
        ;
        lemma_pow2_adds(bits * t.len(), bits);
        let n = number(t, pow2(bits));
        let p = pow2(bits * t.len());
        let b = pow2(bits);
        let l = s.last();
        assert(n * b + l < p * b) by (nonlinear_arith)
            requires
                n < p,
                l < b,
        ;
    }
}

/// One more digit.
pub proof fn digits_step(s: Seq<nat>, d: nat, base: nat)
    ensures
        number(s.push(d), base) == number(s, base) * base + d,
{
    assert(s.push(d).drop_last() =~= s);
}

} // verus!
