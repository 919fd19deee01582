//! What people read: display names, file names and file sizes.

use vstd::prelude::*;
use vstd::arithmetic::div_mod::*;
use vstd::arithmetic::power2::*;

use crate::text::{
    all_kept, cat, cat5, chars_of, control_char, dec, dec_text, is_control, string_of, stripped_ends,
    stripped_is_a_piece, trim_text, trimmed, undot_text, undotted, white_char,
};

verus! {

// --- display names -------------------------------------------------------------

/// The first `n` characters of `s`, or all of them.
pub open spec fn first(s: Seq<char>, n: int) -> Seq<char> {
    if s.len() <= n {
        s
    } else {
        s.take(n)
    }
}

/// A display name, kept short, single-line and printable.
pub open spec fn sane_name(name: Seq<char>) -> Seq<char> {
    let t = trimmed(first(name.filter(|c: char| !control_char(c)), 32));
    if t.len() == 0 {
        "Anonymous"@
    } else {
        t
    }
}

/// Keep display names short, single-line and printable.
pub fn sanitize_name(name: &str) -> (r: String)
    ensures
        r@ == sane_name(name@),
{
    let v = chars_of(name);
    let ghost keep = |c: char| !control_char(c);
    let mut found: Vec<char> = Vec::new();
    let mut i: usize = 0;
    proof {
        reveal(Seq::filter);
        assert(v@.take(0) =~= Seq::<char>::empty());
    }
    while i < v.len()
        invariant
            i <= v@.len(),
            keep == (|c: char| !control_char(c)),
            found@ == v@.take(i as int).filter(keep),
        decreases v@.len() - i,
    {
        proof {
            reveal(Seq::filter);
            assert(v@.take(i + 1).drop_last() =~= v@.take(i as int));
            assert(v@.take(i + 1).last() == v@[i as int]);
        }
        if !is_control(v[i]) {
            found.push(v[i]);
        }
        i += 1;
    }
    assert(v@.take(i as int) =~= v@);
    if found.len() > 32 {
        found.truncate(32);
    }
    let t = trim_text(&string_of(&found));
    if chars_of(&t).len() == 0 {
        "Anonymous".to_owned()
    } else {
        t
    }
}

// --- file names ----------------------------------------------------------------

/// A character that parts a path.
pub open spec fn separator(c: char) -> bool {
    c == '/' || c == '\\'
}

/// A character that may stand in a file name.
pub open spec fn file_char(c: char) -> bool {
    !control_char(c) && c != ':' && c != '*' && c != '?' && c != '"' && c != '<' && c != '>' && c
        != '|'
}

/// What stands behind the last separator.
pub open spec fn base_name(s: Seq<char>) -> Seq<char>
    decreases s.len(),
{
    if s.len() == 0 || separator(s.last()) {
        Seq::empty()
    } else {
        base_name(s.drop_last()).push(s.last())
    }
}

/// A file name without any directory component or unusable character.
pub open spec fn safe_name(name: Seq<char>) -> Seq<char> {
    let t = undotted(trimmed(first(base_name(name).filter(|c: char| file_char(c)), 120)));
    if t.len() == 0 {
        "received.bin"@
    } else {
        t
    }
}

fn is_file_char(c: char) -> (r: bool)
    ensures
        r == file_char(c),
{
    !is_control(c) && c != ':' && c != '*' && c != '?' && c != '"' && c != '<' && c != '>' && c
        != '|'
}

/// Strip any directory component a remote peer might have put in a filename.
pub fn safe_file_name(name: &str) -> (r: String)
    ensures
        r@ == safe_name(name@),
{
    let v = chars_of(name);
    let mut from: usize = v.len();
    let ghost all = base_name(v@);
    assert(v@.take(from as int) =~= v@);
    assert(v@.skip(from as int) =~= Seq::<char>::empty());
    while from > 0 && v[from - 1] != '/' && v[from - 1] != '\\'
        invariant
            from <= v@.len(),
            all == base_name(v@.take(from as int)) + v@.skip(from as int),
        decreases from,
    {
        proof {
            let t = v@.take(from as int);
            assert(t.drop_last() =~= v@.take(from - 1));
            assert(base_name(t) + v@.skip(from as int) =~= base_name(v@.take(from - 1)) + v@.skip(
                from - 1,
            ));
        }
        from -= 1;
    }
    proof {
        assert(base_name(v@.take(from as int)) =~= Seq::<char>::empty());
        assert(all =~= v@.skip(from as int));
    }
    let ghost keep = |c: char| file_char(c);
    let mut found: Vec<char> = Vec::new();
    let mut i: usize = from;
    proof {
        reveal(Seq::filter);
        assert(all.take(0) =~= Seq::<char>::empty());
    }
    while i < v.len()
        invariant
            from <= i <= v@.len(),
            all == v@.skip(from as int),
            keep == (|c: char| file_char(c)),
            found@ == all.take(i - from).filter(keep),
        decreases v@.len() - i,
    {
        proof {
            reveal(Seq::filter);
            assert(all.take(i + 1 - from).drop_last() =~= all.take(i - from));
            assert(all.take(i + 1 - from).last() == v@[i as int]);
        }
        if is_file_char(v[i]) {
            found.push(v[i]);
        }
        i += 1;
    }
    assert(all.take(i - from) =~= all);
    if found.len() > 120 {
        found.truncate(120);
    }
    let t = undot_text(&trim_text(&string_of(&found)));
    if chars_of(&t).len() == 0 {
        "received.bin".to_owned()
    } else {
        t
    }
}

// --- sizes ---------------------------------------------------------------------

/// `n / d`, rounded to the nearest whole number, halves to the even one.
pub open spec fn rounded(n: nat, d: nat) -> nat {
    let q = n / d;
    let r = n % d;
    if 2 * r > d || (2 * r == d && q % 2 == 1) {
        q + 1
    } else {
        q
    }
}

/// How many bits of `n` are beyond the 53 that a size is measured with.
pub open spec fn extra_bits(n: nat) -> nat
    decreases n,
{
    if n < 0x20_0000_0000_0000 {
        0
    } else {
        extra_bits(n / 2) + 1
    }
}

/// `n` with 53 significant bits.
pub open spec fn measured(n: nat) -> nat {
    rounded(n, pow2(extra_bits(n))) * pow2(extra_bits(n))
}

/// A size of `v`, in units of `scale` bytes, with one decimal.
pub open spec fn in_units(v: nat, scale: nat, unit: Seq<char>) -> Seq<char> {
    let tenths = rounded(10 * v, scale);
    dec(tenths / 10) + "."@ + dec(tenths % 10) + " "@ + unit
}

/// A size as people read it: in the largest unit of which there is at least
/// one, with one decimal; bytes are counted exactly.
pub open spec fn size_text(bytes: u64) -> Seq<char> {
    let v = measured(bytes as nat);
    if v < 1024 {
        dec(bytes as nat) + " B"@
    } else if v < 1048576 {
        in_units(v, 1024, "KB"@)
    } else if v < 1073741824 {
        in_units(v, 1048576, "MB"@)
    } else if v < 1099511627776 {
        in_units(v, 1073741824, "GB"@)
    } else {
        in_units(v, 1099511627776, "TB"@)
    }
}

fn round_div(n: u128, d: u128) -> (r: u128)
    requires
        d > 0,
        n < 0x1_0000_0000_0000_0000_0000_0000,
    ensures
        r == rounded(n as nat, d as nat),
        r <= n / d + 1,
{
    let q: u128 = n / d;
    let m: u128 = n % d;
    proof {
        lemma_fundamental_div_mod(n as int, d as int);
        lemma_mod_bound(n as int, d as int);
        lemma_div_is_ordered_by_denominator(n as int, 1, d as int);
    }
    if m > d - m || (m == d - m && q % 2 == 1) {
        q + 1
    } else {
        q
    }
}

proof fn extra_scale(n: nat)
    requires
        n <= 0xffff_ffff_ffff_ffff,
    ensures
        extra_bits(n) <= 11,
{
    reveal_with_fuel(extra_bits, 13);
}

/// `n` with 53 significant bits.
fn measure(n: u64) -> (r: u128)
    ensures
        r == measured(n as nat),
        r <= 0x1_0000_0000_0000_0000,
{
    let mut scale: u128 = 1;
    let mut m: u64 = n;
    let ghost mut bits: nat = 0;
    proof {
        lemma2_to64();
        extra_scale(n as nat);
    }
    while m >= 0x20_0000_0000_0000
        invariant
            bits + extra_bits(m as nat) == extra_bits(n as nat),
            extra_bits(n as nat) <= 11,
            scale == pow2(bits),
        decreases m,
    {
        proof {
            lemma_pow2_adds(bits, 1);
            lemma2_to64();
            if bits < 11 {
                lemma_pow2_strictly_increases(bits, 11);
            }
            bits = bits + 1;
        }
        m = m / 2;
        scale = scale * 2;
    }
    proof {
        lemma2_to64();
        if bits < 11 {
            lemma_pow2_strictly_increases(bits, 11);
        }
        assert(scale <= 2048);
        lemma_pow2_pos(bits);
        lemma_fundamental_div_mod(n as int, scale as int);
        lemma_mod_bound(n as int, scale as int);
    }
    let q: u128 = round_div(n as u128, scale);
    proof {
        let k = scale as int;
        rounded_bound(n as nat, scale as nat);
        assert(q * k < 0x1_0000_0000_0000_0800) by (nonlinear_arith)
            requires
                q <= n as int / k + 1,
                k * (n as int / k) <= n,
                0 < k <= 2048,
                n <= 0xffff_ffff_ffff_ffff,
        ;
        whole_rounded(n as nat, bits);
    }
    q * scale
}

proof fn rounded_bound(n: nat, d: nat)
    requires
        d > 0,
    ensures
        rounded(n, d) <= n / d + 1,
{
}

/// Rounding to fewer bits does not reach beyond the next power of two.
proof fn whole_rounded(n: nat, bits: nat)
    requires
        n <= 0xffff_ffff_ffff_ffff,
        bits <= 11,
    ensures
        rounded(n, pow2(bits)) * pow2(bits) <= 0x1_0000_0000_0000_0000,
{
    lemma2_to64();
    lemma2_to64_rest();
    lemma_pow2_pos(bits);
    let k = pow2(bits);
    let rest = (64 - bits) as nat;
    lemma_pow2_adds(bits, rest);
    let top = pow2(rest);
    let q = n / k;
    assert(k * top == 0x1_0000_0000_0000_0000);
    assert(q < top) by {
        lemma_multiply_divide_lt(n as int, k as int, top as int);
        lemma_mul_is_commutative_nat(k, top);
    }
    assert((q + 1) * k <= top * k) by (nonlinear_arith)
        requires
            q + 1 <= top,
            k > 0,
    ;
    assert(q * k <= (q + 1) * k) by (nonlinear_arith)
        requires
            k > 0,
    ;
    lemma_mul_is_commutative_nat(top, k);
}

proof fn lemma_mul_is_commutative_nat(a: nat, b: nat)
    ensures
        a * b == b * a,
{
    vstd::arithmetic::mul::lemma_mul_is_commutative(a as int, b as int);
}

fn units_text(v: u128, scale: u128, unit: &str) -> (r: String)
    requires
        1024 <= scale,
        v <= 0x1_0000_0000_0000_0000,
    ensures
        r@ == in_units(v as nat, scale as nat, unit@),
{
    let t: u128 = round_div(10 * v, scale);
    proof {
        lemma_div_is_ordered_by_denominator((10 * v) as int, 1024, scale as int);
    }
    let tenths: u64 = t as u64;
    cat5(&dec_text(tenths / 10), ".", &dec_text(tenths % 10), " ", unit)
}

pub fn human_size(bytes: u64) -> (r: String)
    ensures
        r@ == size_text(bytes),
{
    let v: u128 = measure(bytes);
    if v < 1024 {
        cat(&dec_text(bytes), " B")
    } else if v < 1048576 {
        units_text(v, 1024, "KB")
    } else if v < 1073741824 {
        units_text(v, 1048576, "MB")
    } else if v < 1099511627776 {
        units_text(v, 1073741824, "GB")
    } else {
        units_text(v, 1099511627776, "TB")
    }
}

// --- laws ----------------------------------------------------------------------

/// A display name is never empty, never longer than 32 characters, and holds
/// no control character.
pub proof fn display_names_are_printable(name: Seq<char>)
    ensures
        0 < sane_name(name).len() <= 32,
        forall|i: int|
            0 <= i < sane_name(name).len() ==> !control_char(#[trigger] sane_name(name)[i]),
{
    reveal_strlit("Anonymous");
    let keep = |c: char| !control_char(c);
    let f = first(name.filter(keep), 32);
    let k = stripped_is_a_piece(f, |c: char| white_char(c));
    let t = trimmed(f);
    broadcast use vstd::seq_lib::group_filter_ensures;

    assert forall|i: int| 0 <= i < t.len() implies !control_char(#[trigger] t[i]) by {
        assert(t[i] == f[k + i]);
        assert(f[k + i] == name.filter(keep)[k + i]);
        assert(keep(name.filter(keep)[k + i]));
    }
}

/// A display name that was made presentable once stays as it is: everyone who
/// is sent a name shows the same.
pub proof fn sane_names_stay(name: Seq<char>)
    ensures
        sane_name(sane_name(name)) == sane_name(name),
{
    reveal_strlit("Anonymous");
    let s = sane_name(name);
    display_names_are_printable(name);
    stripped_ends(first(name.filter(|c: char| !control_char(c)), 32), |c: char| white_char(c));
    assert(!white_char(s[0]) && !white_char(s.last()));
    all_kept(s, |c: char| !control_char(c));
    assert(crate::text::strip_front(s, |c: char| white_char(c)) == s);
    assert(trimmed(s) == s);
}

proof fn base_has_no_separator(s: Seq<char>)
    ensures
        forall|i: int| 0 <= i < base_name(s).len() ==> !separator(#[trigger] base_name(s)[i]),
    decreases s.len(),
{
    if s.len() > 0 && !separator(s.last()) {
        base_has_no_separator(s.drop_last());
        let b = base_name(s.drop_last());
        assert forall|i: int| 0 <= i < base_name(s).len() implies !separator(
            #[trigger] base_name(s)[i],
        ) by {
            if i < b.len() {
                assert(!separator(b[i]));
            }
        }
    }
}

/// A file name from a peer never leads out of the folder it is saved in: it is
/// not empty, has no separator and no character that file systems give a
/// meaning to, and neither begins nor ends with a full stop.
pub proof fn file_names_stay_in_their_folder(name: Seq<char>)
    ensures
        0 < safe_name(name).len() <= 120,
        forall|i: int|
            0 <= i < safe_name(name).len() ==> !separator(#[trigger] safe_name(name)[i])
                && file_char(safe_name(name)[i]),
        safe_name(name)[0] != '.',
        safe_name(name).last() != '.',
{
    reveal_strlit("received.bin");
    let base = base_name(name);
    base_has_no_separator(name);
    let keep = |c: char| file_char(c);
    let g = base.filter(keep);
    broadcast use vstd::seq_lib::group_filter_ensures;

    filter_from(base, keep);
    let f = first(g, 120);
    let k = stripped_is_a_piece(f, |c: char| white_char(c));
    let t = trimmed(f);
    let m = stripped_is_a_piece(t, |c: char| c == '.');
    let u = undotted(t);
    stripped_ends(t, |c: char| c == '.');
    assert forall|i: int| 0 <= i < u.len() implies !separator(#[trigger] u[i]) && file_char(
        u[i],
    ) by {
        assert(u[i] == t[m + i]);
        assert(t[m + i] == f[k + m + i]);
        assert(f[k + m + i] == g[k + m + i]);
        assert(keep(g[k + m + i]));
        assert(base.contains(g[k + m + i]));
    }
}

proof fn filter_from(s: Seq<char>, keep: spec_fn(char) -> bool)
    ensures
        forall|i: int| 0 <= i < s.filter(keep).len() ==> s.contains(#[trigger] s.filter(keep)[i]),
    decreases s.len(),
{
    reveal(Seq::filter);
    if s.len() > 0 {
        let t = s.drop_last();
        filter_from(t, keep);
        assert forall|i: int| 0 <= i < s.filter(keep).len() implies s.contains(
            #[trigger] s.filter(keep)[i],
        ) by {
            if i < t.filter(keep).len() {
                assert(t.contains(t.filter(keep)[i]));
                let j = choose|j: int| 0 <= j < t.len() && t[j] == t.filter(keep)[i];
                assert(s[j] == s.filter(keep)[i]);
            } else {
                assert(s[s.len() - 1] == s.filter(keep)[i]);
            }
        }
    }
}

/// Below a kilobyte, sizes are counted exactly.
pub proof fn small_sizes_are_exact(bytes: u64)
    requires
        bytes < 1024,
    ensures
        size_text(bytes) == dec(bytes as nat) + " B"@,
{
    lemma2_to64();
    assert(extra_bits(bytes as nat) == 0);
    lemma_fundamental_div_mod(bytes as int, 1);
    assert(measured(bytes as nat) == bytes);
}

} // verus!
