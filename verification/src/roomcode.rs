//! Room codes.
//!
//! A room code is the *only* way to find a room: nothing is advertised,
//! broadcast or published anywhere. The code carries the host's dial address
//! for the chosen transport, encoded in Crockford base32 (no `I`, `L`, `O`,
//! `U`, so it survives being read out over the phone).
//!
//! * LAN:       `L` + base32(4-byte IPv4 + 2-byte port)   -> 11 characters
//! * Bluetooth: `B` + base32(6-byte address + 1-byte channel) -> 13 characters
//!
//! Codes are displayed in dash-separated groups; the parser ignores dashes,
//! spaces and case.

use vstd::prelude::*;
use vstd::arithmetic::div_mod::*;
use vstd::arithmetic::mul::*;
use vstd::arithmetic::power2::*;

use crate::digits::{
    as_bytes, byte_digits, digits, digits_in_base, digits_len, digits_of_number, digits_step,
    in_base, number, number_bound, number_of_digits,
};
use crate::error::{viewed, Error, ErrorView};
use crate::text::{
    alnum_char, cat3, chars_of, dec, dec_text, is_alnum, last_at, lower, lower_all, slice_text,
    strip_back, strip_front, to_upper, trimmed, upper, upper_all, white_char,
};
use crate::transport::{bluetooth, kind_tag, kind_tagged, lan, TransportKind};

verus! {

/// The symbol for a value below 32: the digits, then the capital letters
/// without `I`, `L`, `O` and `U`.
pub open spec fn symbol(v: nat) -> char {
    if v < 10 {
        (48 + v) as char
    } else if v < 18 {
        (55 + v) as char
    } else if v < 20 {
        (56 + v) as char
    } else if v < 22 {
        (57 + v) as char
    } else if v < 27 {
        (58 + v) as char
    } else {
        (59 + v) as char
    }
}

/// The symbol a typed character stands for: capitals, and the substitutions
/// for characters that people commonly mistype.
pub open spec fn folded(c: char) -> char {
    let u = upper(c);
    if u == 'I' || u == 'L' {
        '1'
    } else if u == 'O' {
        '0'
    } else {
        u
    }
}

/// The value of a typed character, if it has one.
pub open spec fn symbol_value(c: char) -> Option<nat> {
    let f = folded(c);
    let n = f as u32;
    if '0' <= f <= '9' {
        Some((n - 48) as nat)
    } else if 'A' <= f <= 'H' {
        Some((n - 55) as nat)
    } else if 'J' <= f <= 'K' {
        Some((n - 56) as nat)
    } else if 'M' <= f <= 'N' {
        Some((n - 57) as nat)
    } else if 'P' <= f <= 'T' {
        Some((n - 58) as nat)
    } else if 'V' <= f <= 'Z' {
        Some((n - 59) as nat)
    } else {
        None
    }
}

/// How many symbols it takes to carry `bytes` bytes.
pub open spec fn symbols_for(bytes: nat) -> nat {
    (8 * bytes + 4) / 5
}

/// The values of the symbols that carry `data`: the same number in base 32,
/// filled up with zero bits at the end.
pub open spec fn b32_digits(data: Seq<u8>) -> Seq<nat> {
    let m = symbols_for(data.len());
    let pad = (5 * m - 8 * data.len()) as nat;
    digits(number(byte_digits(data), 256) * pow2(pad), 32, m)
}

/// `data` in base 32.
pub open spec fn b32_text(data: Seq<u8>) -> Seq<char> {
    Seq::new(symbols_for(data.len()), |i: int| symbol(b32_digits(data)[i]))
}

/// The first character of `s` that is no symbol, as it was read.
pub open spec fn bad_symbol(s: Seq<char>) -> Option<char>
    decreases s.len(),
{
    if s.len() == 0 {
        None
    } else if symbol_value(s[0]) is None {
        Some(folded(s[0]))
    } else {
        bad_symbol(s.skip(1))
    }
}

pub open spec fn symbol_values(s: Seq<char>) -> Seq<nat> {
    Seq::new(s.len(), |i: int| symbol_value(s[i])->0)
}

/// The whole bytes that the symbols of `s` carry.
pub open spec fn b32_bytes(s: Seq<char>) -> Seq<u8> {
    let k = 5 * s.len() / 8;
    let rest = (5 * s.len() - 8 * k) as nat;
    as_bytes(digits(number(symbol_values(s), 32) / pow2(rest), 256, k))
}

/// The first `expected` bytes that `s` carries.
pub open spec fn b32_data(s: Seq<char>, expected: nat) -> Result<Seq<u8>, ErrorView> {
    match bad_symbol(s) {
        Some(c) => Err(
            ErrorView::RoomCode("'"@ + seq![c] + "' is not a valid character in a room code"@),
        ),
        None => if 5 * s.len() / 8 < expected {
            Err(ErrorView::RoomCode("room code is too short"@))
        } else {
            Ok(b32_bytes(s).take(expected as int))
        },
    }
}

fn symbol_for(v: u32) -> (r: char)
    requires
        v < 32,
    ensures
        r == symbol(v as nat),
{
    let b: u8 = v as u8;
    if b < 10 {
        (48 + b) as char
    } else if b < 18 {
        (55 + b) as char
    } else if b < 20 {
        (56 + b) as char
    } else if b < 22 {
        (57 + b) as char
    } else if b < 27 {
        (58 + b) as char
    } else {
        (59 + b) as char
    }
}

proof fn scale_bits(bits: nat)
    ensures
        bits == 0 <==> pow2(bits) == 1,
        bits >= 5 <==> pow2(bits) >= 32,
        bits >= 8 <==> pow2(bits) >= 256,
        pow2(bits) >= 1,
        bits < 5 ==> pow2(bits) <= 16,
        bits < 8 ==> pow2(bits) <= 128,
        bits >= 5 ==> pow2(bits) == 32 * pow2((bits - 5) as nat),
        bits >= 8 ==> pow2(bits) == 256 * pow2((bits - 8) as nat),
        pow2(bits + 8) == 256 * pow2(bits),
        pow2(bits + 5) == 32 * pow2(bits),
{
    lemma2_to64();
    lemma_pow2_pos(bits);
    lemma_pow2_adds(bits, 8);
    lemma_pow2_adds(bits, 5);
    if bits < 4 {
        lemma_pow2_strictly_increases(bits, 4);
    }
    if bits < 7 {
        lemma_pow2_strictly_increases(bits, 7);
    }
    if bits > 0 {
        lemma_pow2_strictly_increases(0, bits);
    }
    if bits > 5 {
        lemma_pow2_strictly_increases(5, bits);
    }
    if bits > 8 {
        lemma_pow2_strictly_increases(8, bits);
    }
    if bits >= 5 {
        lemma_pow2_adds((bits - 5) as nat, 5);
    }
    if bits >= 8 {
        lemma_pow2_adds((bits - 8) as nat, 8);
    }
}

/// `data` in base 32.
pub fn b32_encode(data: &[u8]) -> (r: String)
    ensures
        r@ == b32_text(data@),
{
    let mut out = String::new();
    let ghost mut d: Seq<nat> = Seq::empty();
    let ghost mut bits: nat = 0;
    let ghost all = byte_digits(data@);
    let mut acc: u32 = 0;
    let mut scale: u32 = 1;
    let mut i: usize = 0;
    proof {
        lemma2_to64();
        assert(all.take(0) =~= Seq::<nat>::empty());
    }
    while i < data.len()
        invariant
            i <= data@.len(),
            all == byte_digits(data@),
            bits < 5,
            scale == pow2(bits),
            acc < scale,
            5 * d.len() + bits == 8 * i,
            in_base(d, 32),
            out@ == Seq::new(d.len(), |j: int| symbol(d[j])),
            number(d, 32) * pow2(bits) + acc == number(all.take(i as int), 256),
        decreases data@.len() - i,
    {
        proof {
            scale_bits(bits);
            assert(all.take(i + 1) =~= all.take(i as int).push(all[i as int]));
            digits_step(all.take(i as int), all[i as int], 256);
            let n = number(d, 32);
            let p = pow2(bits);
            assert(n * (256 * p) == 256 * (n * p)) by (nonlinear_arith);
        }
        acc = acc * 256 + data[i] as u32;
        scale = scale * 256;
        proof {
            bits = bits + 8;
        }
        while scale >= 32
            invariant
                i < data@.len(),
                all == byte_digits(data@),
                bits < 13,
                scale == pow2(bits),
                scale <= 4096,
                acc < scale,
                5 * d.len() + bits == 8 * (i + 1),
                in_base(d, 32),
                out@ == Seq::new(d.len(), |j: int| symbol(d[j])),
                number(d, 32) * pow2(bits) + acc == number(all.take(i + 1), 256),
            decreases scale,
        {
            proof {
                scale_bits(bits);
            }
            scale = scale / 32;
            let v: u32 = acc / scale;
            proof {
                let less = (bits - 5) as nat;
                let p = pow2(less);
                lemma_fundamental_div_mod(acc as int, p as int);
                lemma_multiply_divide_lt(acc as int, p as int, 32);
                lemma_mod_bound(acc as int, p as int);
                let n = number(d, 32);
                digits_step(d, v as nat, 32);
                assert((n * 32 + v) * p == n * (32 * p) + p * v) by (nonlinear_arith);
                assert forall|j: int| 0 <= j < d.push(v as nat).len() implies #[trigger] d.push(
                    v as nat,
                )[j] < 32 by {
                    if j < d.len() {
                        assert(d[j] < 32);
                    }
                }
                assert(Seq::new(d.len(), |j: int| symbol(d[j])).push(symbol(v as nat))
                    =~= Seq::new(d.len() + 1, |j: int| symbol(d.push(v as nat)[j])));
                d = d.push(v as nat);
                bits = less;
            }
            out.push(symbol_for(v));
            acc = acc % scale;
        }
        proof {
            scale_bits(bits);
        }
        i += 1;
    }
    proof {
        assert(all.take(i as int) =~= all);
        scale_bits(bits);
    }
    let ghost whole = number(all, 256);
    if scale > 1 {
        let ghost pad = (5 - bits) as nat;
        proof {
            lemma2_to64();
            lemma_pow2_adds(bits, pad);
            assert(pow2(bits) * pow2(pad) == 32);
            lemma_mul_is_commutative(scale as int, pow2(pad) as int);
            lemma_fundamental_div_mod_converse(32, scale as int, pow2(pad) as int, 0);
        }
        let up: u32 = 32 / scale;
        assert(up == pow2(pad));
        proof {
            let n = number(d, 32);
            let p = pow2(bits);
            let q = pow2(pad);
            assert(acc * up < 32) by (nonlinear_arith)
                requires
                    acc < p,
                    p * q == 32,
                    up == q,
                    q > 0,
            ;
            assert((n * p + acc) * q == n * 32 + acc * q) by (nonlinear_arith)
                requires
                    p * q == 32,
            ;
        }
        let v: u32 = acc * up;
        out.push(symbol_for(v));
        proof {
            digits_step(d, v as nat, 32);
            assert forall|j: int| 0 <= j < d.push(v as nat).len() implies #[trigger] d.push(
                v as nat,
            )[j] < 32 by {
                if j < d.len() {
                    assert(d[j] < 32);
                }
            }
            assert(Seq::new(d.len(), |j: int| symbol(d[j])).push(symbol(v as nat)) =~= Seq::new(
                d.len() + 1,
                |j: int| symbol(d.push(v as nat)[j]),
            ));
            d = d.push(v as nat);
            assert(number(d, 32) == whole * pow2(pad));
            assert(symbols_for(data@.len()) == d.len());
        }
    } else {
        proof {
            lemma2_to64();
            lemma_mul_basics(number(d, 32) as int);
            assert(number(d, 32) == whole * pow2(0)) by (nonlinear_arith)
                requires
                    pow2(0) == 1,
                    number(d, 32) == whole,
            ;
            assert(symbols_for(data@.len()) == d.len());
        }
    }
    proof {
        digits_of_number(d, 32);
        assert(b32_digits(data@) == d);
        assert(out@ =~= b32_text(data@));
    }
    out
}

/// The symbol a typed character stands for.
fn fold(c: char) -> (r: char)
    ensures
        r == folded(c),
{
    let u: char = to_upper(c);
    if u == 'I' || u == 'L' {
        '1'
    } else if u == 'O' {
        '0'
    } else {
        u
    }
}

fn b32_value(c: char) -> (r: Result<u32, Error>)
    ensures
        match r {
            Ok(v) => symbol_value(c) == Some(v as nat) && v < 32,
            Err(e) => symbol_value(c) is None && e@ == ErrorView::RoomCode(
                "'"@ + seq![folded(c)] + "' is not a valid character in a room code"@,
            ),
        },
{
    let f: char = fold(c);
    let n: u32 = f as u32;
    if '0' <= f && f <= '9' {
        Ok(n - 48)
    } else if 'A' <= f && f <= 'H' {
        Ok(n - 55)
    } else if 'J' <= f && f <= 'K' {
        Ok(n - 56)
    } else if 'M' <= f && f <= 'N' {
        Ok(n - 57)
    } else if 'P' <= f && f <= 'T' {
        Ok(n - 58)
    } else if 'V' <= f && f <= 'Z' {
        Ok(n - 59)
    } else {
        let mut one = String::new();
        one.push(f);
        assert(one@ =~= seq![f]);
        Err(Error::RoomCode(cat3("'", &one, "' is not a valid character in a room code")))
    }
}

/// The first `expected_bytes` bytes that the symbols of `s` carry.
pub fn b32_decode(s: &str, expected_bytes: usize) -> (r: Result<Vec<u8>, Error>)
    ensures
        viewed(r) == b32_data(s@, expected_bytes as nat),
        r matches Ok(v) ==> v@.len() == expected_bytes,
{
    let v = chars_of(s);
    let ghost all = symbol_values(s@);
    let mut out: Vec<u8> = Vec::new();
    let ghost mut bits: nat = 0;
    let mut acc: u32 = 0;
    let mut scale: u32 = 1;
    let mut i: usize = 0;
    proof {
        lemma2_to64();
        assert(all.take(0) =~= Seq::<nat>::empty());
        assert(s@.skip(0) =~= s@);
        assert(byte_digits(out@) =~= Seq::<nat>::empty());
    }
    while i < v.len()
        invariant
            i <= v@.len(),
            v@ == s@,
            all == symbol_values(s@),
            bits < 8,
            scale == pow2(bits),
            acc < scale,
            8 * out@.len() + bits == 5 * i,
            bad_symbol(s@) == bad_symbol(s@.skip(i as int)),
            number(byte_digits(out@), 256) * pow2(bits) + acc == number(all.take(i as int), 32),
        decreases v@.len() - i,
    {
        assert(s@.skip(i as int)[0] == v@[i as int]);
        assert(s@.skip(i as int).skip(1) =~= s@.skip(i + 1));
        let value: u32 = match b32_value(v[i]) {
            Ok(value) => value,
            Err(e) => {
                return Err(e);
            },
        };
        proof {
            scale_bits(bits);
            assert(all.take(i + 1) =~= all.take(i as int).push(all[i as int]));
            digits_step(all.take(i as int), all[i as int], 32);
            let n = number(byte_digits(out@), 256);
            let p = pow2(bits);
            assert(n * (32 * p) == 32 * (n * p)) by (nonlinear_arith);
        }
        acc = acc * 32 + value;
        scale = scale * 32;
        proof {
            bits = bits + 5;
            scale_bits(bits);
        }
        if scale >= 256 {
            scale = scale / 256;
            let b: u32 = acc / scale;
            proof {
                let less = (bits - 8) as nat;
                let p = pow2(less);
                lemma_fundamental_div_mod(acc as int, p as int);
                lemma_multiply_divide_lt(acc as int, p as int, 256);
                lemma_mod_bound(acc as int, p as int);
                let n = number(byte_digits(out@), 256);
                digits_step(byte_digits(out@), b as nat, 256);
                assert((n * 256 + b) * p == n * (256 * p) + p * b) by (nonlinear_arith);
                assert(byte_digits(out@.push(b as u8)) =~= byte_digits(out@).push(b as nat));
                bits = less;
            }
            out.push(b as u8);
            acc = acc % scale;
        }
        proof {
            scale_bits(bits);
        }
        i += 1;
    }
    proof {
        assert(all.take(i as int) =~= all);
        assert(out@.len() == 5 * s@.len() / 8);
        let n = number(byte_digits(out@), 256);
        lemma_pow2_pos(bits);
        lemma_fundamental_div_mod_converse(
            number(all, 32) as int,
            pow2(bits) as int,
            n as int,
            acc as int,
        );
        digits_of_number(byte_digits(out@), 256);
        assert(as_bytes(byte_digits(out@)) =~= out@);
        assert(b32_bytes(s@) =~= out@);
    }
    if out.len() < expected_bytes {
        return Err(Error::RoomCode("room code is too short".to_owned()));
    }
    out.truncate(expected_bytes);
    Ok(out)
}


/// What is left of a code once its formatting is gone: the ASCII letters and
/// digits, in capitals.
pub open spec fn cleaned(code: Seq<char>) -> Seq<char> {
    upper_all(code.filter(|c: char| alnum_char(c)))
}

/// A code in the one spelling that all ways of typing it share: without
/// formatting, in capitals, and with lookalikes folded behind the tag.
pub open spec fn canonical(code: Seq<char>) -> Seq<char> {
    let c = cleaned(code);
    Seq::new(
        c.len(),
        |i: int|
            if i == 0 {
                c[0]
            } else {
                folded(c[i])
            },
    )
}

/// The transport that a code is for, and the symbols behind its tag.
pub open spec fn split_of(code: Seq<char>) -> Result<(TransportKind, Seq<char>), ErrorView> {
    let c = cleaned(code);
    if c.len() == 0 {
        Err(ErrorView::RoomCode("the room code is empty"@))
    } else {
        match kind_tagged(c[0]) {
            Some(kind) => Ok((kind, c.skip(1))),
            None => Err(
                ErrorView::RoomCode(
                    "'"@ + seq![c[0]]
                        + "' is not a known room-code prefix (expected L for LAN or B for Bluetooth)"@,
                ),
            ),
        }
    }
}

/// `s` in groups of five with dashes between them.
pub open spec fn grouped(s: Seq<char>) -> Seq<char>
    decreases s.len(),
{
    if s.len() <= 5 {
        s
    } else {
        s.take(5) + "-"@ + grouped(s.skip(5))
    }
}

/// A code as it is displayed: `L-ABCDE-FGHIJ`.
pub open spec fn pretty_text(tag: char, payload: Seq<char>) -> Seq<char> {
    seq![tag] + "-"@ + grouped(payload)
}

/// The six bytes that stand for an IPv4 address and port.
pub open spec fn lan_payload(o: Seq<u8>, port: u16) -> Seq<u8> {
    o + seq![(port / 256) as u8, (port % 256) as u8]
}

/// The seven bytes that stand for a radio address and RFCOMM channel.
pub open spec fn bluetooth_payload(addr: u64, channel: u8) -> Seq<u8> {
    as_bytes(digits(addr as nat, 256, 6)) + seq![channel]
}

/// The room code for a dial address.
pub open spec fn encoded(kind: TransportKind, dial: Seq<char>) -> Result<Seq<char>, ErrorView> {
    match kind {
        TransportKind::Lan => match lan::v4_of(dial) {
            Some(a) => Ok(pretty_text(kind_tag(kind), b32_text(lan_payload(a.0, a.1)))),
            None => if lan::v6_socket(dial) {
                Err(
                    ErrorView::RoomCode(
                        "LAN mode needs an IPv4 address; this machine reported only IPv6"@,
                    ),
                )
            } else {
                Err(ErrorView::RoomCode("'"@ + dial + "' is not a valid address:port"@))
            },
        },
        TransportKind::Bluetooth => match bluetooth::dial_of(dial) {
            Err(e) => Err(e),
            Ok(d) => if d.1 == 0 || d.1 > 30 {
                Err(
                    ErrorView::RoomCode(
                        "RFCOMM channel "@ + dec(d.1 as nat)
                            + " is outside the encodable range 1-30"@,
                    ),
                )
            } else {
                Ok(pretty_text(kind_tag(kind), b32_text(bluetooth_payload(d.0, d.1 as u8))))
            },
        },
    }
}

/// The port that two bytes stand for.
pub open spec fn port_in(b: Seq<u8>) -> u16 {
    (b[4] * 256 + b[5]) as u16
}

/// The radio address that six bytes stand for.
pub open spec fn addr_in(b: Seq<u8>) -> nat {
    number(byte_digits(b.take(6)), 256)
}

/// The transport and dial address that a room code names.
pub open spec fn decoded(code: Seq<char>) -> Result<(TransportKind, Seq<char>), ErrorView> {
    match split_of(code) {
        Err(e) => Err(e),
        Ok((TransportKind::Lan, payload)) => match b32_data(payload, 6) {
            Err(e) => Err(e),
            Ok(b) => if port_in(b) == 0 {
                Err(ErrorView::RoomCode("room code contains an invalid port"@))
            } else {
                Ok((TransportKind::Lan, lan::v4_text(b.take(4), port_in(b))))
            },
        },
        Ok((TransportKind::Bluetooth, payload)) => match b32_data(payload, 7) {
            Err(e) => Err(e),
            Ok(b) => if b[6] == 0 || b[6] > 30 {
                Err(ErrorView::RoomCode("room code contains an invalid RFCOMM channel"@))
            } else {
                Ok(
                    (
                        TransportKind::Bluetooth,
                        bluetooth::addr_text(addr_in(b)) + ":"@ + dec(b[6] as nat),
                    ),
                )
            },
        },
    }
}

/// A code without its formatting: letters and digits only, in capitals.
pub fn clean(code: &str) -> (r: String)
    ensures
        r@ == cleaned(code@),
{
    let v = chars_of(code);
    let ghost keep = |c: char| alnum_char(c);
    let mut out = String::new();
    let mut i: usize = 0;
    proof {
        reveal(Seq::filter);
        assert(v@.take(0) =~= Seq::<char>::empty());
        assert(out@ =~= upper_all(v@.take(0).filter(keep)));
    }
    while i < v.len()
        invariant
            i <= v@.len(),
            keep == (|c: char| alnum_char(c)),
            out@ == upper_all(v@.take(i as int).filter(keep)),
        decreases v@.len() - i,
    {
        proof {
            reveal(Seq::filter);
            assert(v@.take(i + 1).drop_last() =~= v@.take(i as int));
            assert(v@.take(i + 1).last() == v@[i as int]);
        }
        let ghost before = v@.take(i as int).filter(keep);
        if is_alnum(v[i]) {
            out.push(to_upper(v[i]));
            assert(upper_all(before.push(v@[i as int])) =~= upper_all(before).push(
                upper(v@[i as int]),
            ));
        }
        i += 1;
    }
    assert(v@.take(i as int) =~= v@);
    out
}

/// A code in the one spelling that all ways of typing it share.
pub fn normalize_code(code: &str) -> (r: String)
    ensures
        r@ == canonical(code@),
{
    let v = chars_of(&clean(code));
    let mut out = String::new();
    let mut i: usize = 0;
    assert(out@ =~= canonical(code@).take(0));
    while i < v.len()
        invariant
            i <= v@.len(),
            v@ == cleaned(code@),
            out@ == canonical(code@).take(i as int),
        decreases v@.len() - i,
    {
        let c: char = if i == 0 {
            v[i]
        } else {
            fold(v[i])
        };
        out.push(c);
        assert(out@ =~= canonical(code@).take(i + 1));
        i += 1;
    }
    assert(canonical(code@).take(i as int) =~= canonical(code@));
    out
}

/// Strip formatting and return `(transport, payload_chars)`.
fn split(code: &str) -> (r: Result<(TransportKind, String), Error>)
    ensures
        match r {
            Ok((k, p)) => split_of(code@) == Ok::<(TransportKind, Seq<char>), ErrorView>((k, p@)),
            Err(e) => split_of(code@) == Err::<(TransportKind, Seq<char>), ErrorView>(e@),
        },
{
    let c = chars_of(&clean(code));
    if c.len() == 0 {
        return Err(Error::RoomCode("the room code is empty".to_owned()));
    }
    match TransportKind::from_tag(c[0]) {
        Some(kind) => {
            let rest = slice_text(&c, 1, c.len());
            assert(c@.subrange(1, c@.len() as int) =~= c@.skip(1));
            Ok((kind, rest))
        },
        None => {
            let mut one = String::new();
            one.push(c[0]);
            assert(one@ =~= seq![c@[0]]);
            Err(
                Error::RoomCode(
                    cat3(
                        "'",
                        &one,
                        "' is not a known room-code prefix (expected L for LAN or B for Bluetooth)",
                    ),
                ),
            )
        },
    }
}

/// Group the payload into readable chunks: `L-ABCDE-FGHIJ`.
fn pretty(tag: char, payload: &str) -> (r: String)
    ensures
        r@ == pretty_text(tag, payload@),
{
    let v = chars_of(payload);
    let mut out = String::new();
    out.push(tag);
    out.append("-");
    let mut from: usize = 0;
    let ghost start = out@;
    assert(v@.skip(0) =~= v@);
    assert(start =~= seq![tag] + "-"@);
    while v.len() - from > 5
        invariant
            from <= v@.len(),
            out@ + grouped(v@.skip(from as int)) =~= start + grouped(v@),
        decreases v@.len() - from,
    {
        let ghost before = out@;
        out.append(&slice_text(&v, from, from + 5));
        out.append("-");
        proof {
            let s = v@.skip(from as int);
            assert(s.take(5) =~= v@.subrange(from as int, from + 5));
            assert(s.skip(5) =~= v@.skip(from + 5));
            assert(out@ + grouped(s.skip(5)) =~= before + grouped(s));
        }
        from += 5;
    }
    out.append(&slice_text(&v, from, v.len()));
    assert(v@.subrange(from as int, v@.len() as int) =~= v@.skip(from as int));
    assert(out@ =~= pretty_text(tag, payload@));
    out
}

/// The low `len` bytes of `v`, most significant first.
fn low_bytes(v: u64, len: u64) -> (r: Vec<u8>)
    ensures
        r@ == as_bytes(digits(v as nat, 256, len as nat)),
        r@.len() == len,
    decreases len,
{
    proof {
        digits_len(v as nat, 256, len as nat);
    }
    if len == 0 {
        let out: Vec<u8> = Vec::new();
        assert(out@ =~= as_bytes(digits(v as nat, 256, 0)));
        out
    } else {
        let mut out = low_bytes(v / 256, len - 1);
        out.push((v % 256) as u8);
        assert(out@ =~= as_bytes(digits(v as nat, 256, len as nat)));
        out
    }
}

/// Build a room code from a transport and the dial address of its listener.
pub fn encode(kind: TransportKind, dial: &str) -> (r: Result<String, Error>)
    ensures
        viewed(r) == encoded(kind, dial@),
{
    match kind {
        TransportKind::Lan => {
            let v = chars_of(dial);
            match lan::parse_v4(&v) {
                Some((octets, port)) => {
                    let ghost o = octets@;
                    let mut bytes = octets;
                    bytes.push((port / 256) as u8);
                    bytes.push((port % 256) as u8);
                    assert(bytes@ =~= lan_payload(o, port));
                    Ok(pretty(kind.tag(), &b32_encode(&bytes)))
                },
                None => if lan::is_v6_socket(&v) {
                    Err(
                        Error::RoomCode(
                            "LAN mode needs an IPv4 address; this machine reported only IPv6".to_owned(),
                        ),
                    )
                } else {
                    Err(Error::RoomCode(cat3("'", dial, "' is not a valid address:port")))
                },
            }
        },
        TransportKind::Bluetooth => {
            let (addr, channel) = match bluetooth::parse_dial(dial) {
                Ok(d) => d,
                Err(e) => {
                    return Err(e);
                },
            };
            if channel == 0 || channel > 30 {
                return Err(
                    Error::RoomCode(
                        cat3(
                            "RFCOMM channel ",
                            &dec_text(channel as u64),
                            " is outside the encodable range 1-30",
                        ),
                    ),
                );
            }
            let mut bytes = low_bytes(addr, 6);
            bytes.push(channel as u8);
            assert(bytes@ =~= bluetooth_payload(addr, channel as u8));
            Ok(pretty(kind.tag(), &b32_encode(&bytes)))
        },
    }
}

/// The number that the first six bytes write.
fn addr_from(b: &Vec<u8>) -> (r: u64)
    requires
        b@.len() == 7,
    ensures
        r == addr_in(b@),
        r < 0x1_0000_0000_0000,
{
    let ghost all = byte_digits(b@.take(6));
    let mut addr: u64 = 0;
    let mut i: usize = 0;
    proof {
        lemma2_to64();
        lemma2_to64_rest();
        assert(all.take(0) =~= Seq::<nat>::empty());
    }
    while i < 6
        invariant
            i <= 6,
            b@.len() == 7,
            all == byte_digits(b@.take(6)),
            addr == number(all.take(i as int), 256),
            pow2(8) == 256,
            pow2(40) == 0x100_0000_0000,
        decreases 6 - i,
    {
        proof {
            let t = all.take(i as int);
            number_bound(t, 8);
            if 8 * i < 40 {
                lemma_pow2_strictly_increases((8 * i) as nat, 40);
            }
            assert(all.take(i + 1) =~= t.push(all[i as int]));
            digits_step(t, all[i as int], 256);
        }
        addr = addr * 256 + b[i] as u64;
        i += 1;
    }
    proof {
        assert(all.take(6) =~= all);
        number_bound(all, 8);
    }
    addr
}

/// Parse a room code back into `(transport, dial address)`.
pub fn decode(code: &str) -> (r: Result<(TransportKind, String), Error>)
    ensures
        match r {
            Ok((k, d)) => decoded(code@) == Ok::<(TransportKind, Seq<char>), ErrorView>((k, d@)),
            Err(e) => decoded(code@) == Err::<(TransportKind, Seq<char>), ErrorView>(e@),
        },
{
    let (kind, payload) = match split(code) {
        Ok(p) => p,
        Err(e) => {
            return Err(e);
        },
    };
    match kind {
        TransportKind::Lan => {
            let bytes = match b32_decode(&payload, 6) {
                Ok(b) => b,
                Err(e) => {
                    return Err(e);
                },
            };
            let port: u16 = bytes[4] as u16 * 256 + bytes[5] as u16;
            if port == 0 {
                return Err(Error::RoomCode("room code contains an invalid port".to_owned()));
            }
            let ghost all = bytes@;
            let mut octets = bytes;
            octets.truncate(4);
            assert(octets@ =~= all.take(4));
            Ok((kind, lan::format_v4(&octets, port)))
        },
        TransportKind::Bluetooth => {
            let bytes = match b32_decode(&payload, 7) {
                Ok(b) => b,
                Err(e) => {
                    return Err(e);
                },
            };
            let addr = addr_from(&bytes);
            let channel: u8 = bytes[6];
            if channel == 0 || channel > 30 {
                return Err(
                    Error::RoomCode("room code contains an invalid RFCOMM channel".to_owned()),
                );
            }
            Ok((kind, cat3(&bluetooth::format_addr(addr), ":", &dec_text(channel as u64))))
        },
    }
}

// --- laws ---------------------------------------------------------------------

proof fn symbol_reads_back(v: nat)
    requires
        v < 32,
    ensures
        symbol_value(symbol(v)) == Some(v),
        alnum_char(symbol(v)),
        upper(symbol(v)) == symbol(v),
{
}

proof fn no_bad_symbol(s: Seq<char>)
    requires
        forall|i: int| 0 <= i < s.len() ==> symbol_value(#[trigger] s[i]) is Some,
    ensures
        bad_symbol(s) is None,
    decreases s.len(),
{
    if s.len() > 0 {
        assert(symbol_value(s[0]) is Some);
        let t = s.skip(1);
        assert forall|i: int| 0 <= i < t.len() implies symbol_value(#[trigger] t[i]) is Some by {
            assert(symbol_value(s[i + 1]) is Some);
        }
        no_bad_symbol(t);
    }
}

/// The base 32 text of `data` is made of symbols.
proof fn b32_text_symbols(data: Seq<u8>)
    ensures
        b32_digits(data).len() == symbols_for(data.len()),
        in_base(b32_digits(data), 32),
        forall|i: int|
            0 <= i < b32_text(data).len() ==> alnum_char(#[trigger] b32_text(data)[i]) && upper(
                b32_text(data)[i],
            ) == b32_text(data)[i],
{
    let m = symbols_for(data.len());
    let pad = (5 * m - 8 * data.len()) as nat;
    let n = number(byte_digits(data), 256) * pow2(pad);
    digits_len(n, 32, m);
    digits_in_base(n, 32, m);
    let d = b32_digits(data);
    assert forall|i: int| 0 <= i < b32_text(data).len() implies alnum_char(
        #[trigger] b32_text(data)[i],
    ) && upper(b32_text(data)[i]) == b32_text(data)[i] by {
        assert(d[i] < 32);
        symbol_reads_back(d[i]);
    }
}

/// Whatever bytes go into base 32 come out of it again.
pub proof fn b32_round_trip(data: Seq<u8>)
    ensures
        b32_data(b32_text(data), data.len()) == Ok::<Seq<u8>, ErrorView>(data),
{
    let n = data.len();
    let m = symbols_for(n);
    let pad = (5 * m - 8 * n) as nat;
    let whole = number(byte_digits(data), 256);
    let d = b32_digits(data);
    let t = b32_text(data);
    b32_text_symbols(data);
    assert forall|i: int| 0 <= i < t.len() implies symbol_value(#[trigger] t[i]) == Some(d[i]) by {
        assert(d[i] < 32);
        symbol_reads_back(d[i]);
    }
    no_bad_symbol(t);
    assert(symbol_values(t) =~= d);
    lemma2_to64();
    number_bound(byte_digits(data), 8);
    lemma_pow2_adds(8 * n, pad);
    lemma_pow2_pos(pad);
    assert(whole * pow2(pad) < pow2(8 * n) * pow2(pad)) by (nonlinear_arith)
        requires
            whole < pow2(8 * n),
            pow2(pad) > 0,
    ;
    number_of_digits(whole * pow2(pad), 5, m);
    assert(whole * pow2(pad) / pow2(pad) == whole) by {
        lemma_fundamental_div_mod_converse(
            (whole * pow2(pad)) as int,
            pow2(pad) as int,
            whole as int,
            0,
        );
    }
    digits_of_number(byte_digits(data), 256);
    assert(as_bytes(byte_digits(data)) =~= data);
    assert(5 * m / 8 == n);
    assert(b32_bytes(t) =~= data);
    assert(data.take(n as int) =~= data);
}

/// Cleaning takes texts apart.
proof fn cleaned_adds(a: Seq<char>, b: Seq<char>)
    ensures
        cleaned(a + b) == cleaned(a) + cleaned(b),
{
    let keep = |c: char| alnum_char(c);
    Seq::filter_distributes_over_add(a, b, keep);
    assert(cleaned(a + b) =~= cleaned(a) + cleaned(b));
}

proof fn cleaned_one(c: char)
    ensures
        alnum_char(c) ==> cleaned(seq![c]) == seq![upper(c)],
        !alnum_char(c) ==> cleaned(seq![c]) == Seq::<char>::empty(),
{
    let keep = |c: char| alnum_char(c);
    reveal(Seq::filter);
    assert(seq![c].drop_last() =~= Seq::<char>::empty());
    assert(Seq::<char>::empty().filter(keep) =~= Seq::<char>::empty());
    if alnum_char(c) {
        assert(seq![c].filter(keep) =~= seq![c]);
        assert(cleaned(seq![c]) =~= seq![upper(c)]);
    } else {
        assert(cleaned(seq![c]) =~= Seq::<char>::empty());
    }
}

/// Letters and digits in capitals are clean already.
proof fn cleaned_clean(s: Seq<char>)
    requires
        forall|i: int| 0 <= i < s.len() ==> alnum_char(#[trigger] s[i]) && upper(s[i]) == s[i],
    ensures
        cleaned(s) == s,
    decreases s.len(),
{
    if s.len() == 0 {
        reveal(Seq::filter);
        assert(cleaned(s) =~= s);
    } else {
        let t = s.drop_last();
        assert forall|i: int| 0 <= i < t.len() implies alnum_char(#[trigger] t[i]) && upper(t[i])
            == t[i] by {
            assert(alnum_char(s[i]));
        }
        cleaned_clean(t);
        assert(alnum_char(s[s.len() - 1]));
        cleaned_one(s.last());
        assert(s =~= t + seq![s.last()]);
        cleaned_adds(t, seq![s.last()]);
    }
}

proof fn cleaned_dash()
    ensures
        cleaned("-"@) == Seq::<char>::empty(),
{
    reveal_strlit("-");
    assert("-"@ =~= seq!['-']);
    cleaned_one('-');
}

proof fn cleaned_grouped(s: Seq<char>)
    requires
        forall|i: int| 0 <= i < s.len() ==> alnum_char(#[trigger] s[i]) && upper(s[i]) == s[i],
    ensures
        cleaned(grouped(s)) == s,
    decreases s.len(),
{
    if s.len() <= 5 {
        cleaned_clean(s);
    } else {
        let a = s.take(5);
        let b = s.skip(5);
        assert forall|i: int| 0 <= i < a.len() implies alnum_char(#[trigger] a[i]) && upper(a[i])
            == a[i] by {
            assert(alnum_char(s[i]));
        }
        assert forall|i: int| 0 <= i < b.len() implies alnum_char(#[trigger] b[i]) && upper(b[i])
            == b[i] by {
            assert(alnum_char(s[i + 5]));
        }
        cleaned_clean(a);
        cleaned_grouped(b);
        cleaned_dash();
        cleaned_adds(a, "-"@);
        cleaned_adds(a + "-"@, grouped(b));
        assert(a + Seq::<char>::empty() + b =~= s);
    }
}

/// What is left of a displayed code is its tag and its symbols.
proof fn cleaned_pretty(kind: TransportKind, data: Seq<u8>)
    ensures
        cleaned(pretty_text(kind_tag(kind), b32_text(data))) == seq![kind_tag(kind)] + b32_text(
            data,
        ),
        split_of(pretty_text(kind_tag(kind), b32_text(data))) == Ok::<
            (TransportKind, Seq<char>),
            ErrorView,
        >((kind, b32_text(data))),
{
    let tag = kind_tag(kind);
    let p = b32_text(data);
    b32_text_symbols(data);
    cleaned_one(tag);
    cleaned_dash();
    cleaned_grouped(p);
    cleaned_adds(seq![tag], "-"@);
    cleaned_adds(seq![tag] + "-"@, grouped(p));
    assert(seq![tag] + Seq::<char>::empty() + p =~= seq![tag] + p);
    assert((seq![tag] + p).skip(1) =~= p);
}

/// A LAN address that goes into a room code comes out of it: the address and
/// port are the same, written in the one way that addresses are written.
/// A code has eleven letters and digits.
pub proof fn lan_round_trip(dial: Seq<char>, octets: Seq<u8>, port: u16)
    requires
        lan::v4_of(dial) == Some((octets, port)),
        port != 0,
    ensures
        encoded(TransportKind::Lan, dial) is Ok,
        decoded(encoded(TransportKind::Lan, dial)->Ok_0) == Ok::<
            (TransportKind, Seq<char>),
            ErrorView,
        >((TransportKind::Lan, lan::v4_text(octets, port))),
        lan::v4_of(lan::v4_text(octets, port)) == Some((octets, port)),
        cleaned(encoded(TransportKind::Lan, dial)->Ok_0).len() == 11,
{
    let colon = last_at(dial, ':');
    lan::octets_len(dial.take(colon), 4);
    lan::v4_text_reads_back(octets, port);
    let b = lan_payload(octets, port);
    cleaned_pretty(TransportKind::Lan, b);
    b32_round_trip(b);
    assert(b.take(4) =~= octets);
    assert(b[4] == (port / 256) as u8);
    assert(b[5] == (port % 256) as u8);
    assert(port_in(b) == port);
}

/// A dial address in the one way that addresses are written comes out of its
/// room code letter for letter.
pub proof fn lan_dial_round_trip(octets: Seq<u8>, port: u16)
    requires
        octets.len() == 4,
        port != 0,
    ensures
        encoded(TransportKind::Lan, lan::v4_text(octets, port)) is Ok,
        decoded(encoded(TransportKind::Lan, lan::v4_text(octets, port))->Ok_0) == Ok::<
            (TransportKind, Seq<char>),
            ErrorView,
        >((TransportKind::Lan, lan::v4_text(octets, port))),
{
    lan::v4_text_reads_back(octets, port);
    lan_round_trip(lan::v4_text(octets, port), octets, port);
}

/// A radio address and channel that go into a room code come out of it.
/// A code has thirteen letters and digits, two more than a LAN code.
pub proof fn bluetooth_round_trip(dial: Seq<char>, addr: u64, channel: u32)
    requires
        bluetooth::dial_of(dial) == Ok::<(u64, u32), ErrorView>((addr, channel)),
        1 <= channel <= 30,
        addr < 0x1_0000_0000_0000,
    ensures
        encoded(TransportKind::Bluetooth, dial) is Ok,
        decoded(encoded(TransportKind::Bluetooth, dial)->Ok_0) == Ok::<
            (TransportKind, Seq<char>),
            ErrorView,
        >(
            (
                TransportKind::Bluetooth,
                bluetooth::addr_text(addr as nat) + ":"@ + dec(channel as nat),
            ),
        ),
        cleaned(encoded(TransportKind::Bluetooth, dial)->Ok_0).len() == 13,
{
    let b = bluetooth_payload(addr, channel as u8);
    digits_len(addr as nat, 256, 6);
    digits_in_base(addr as nat, 256, 6);
    cleaned_pretty(TransportKind::Bluetooth, b);
    b32_round_trip(b);
    let d = digits(addr as nat, 256, 6);
    assert forall|i: int| 0 <= i < 6 implies #[trigger] byte_digits(b.take(6))[i] == d[i] by {
        assert(d[i] < 256);
    }
    assert(byte_digits(b.take(6)) =~= d);
    lemma2_to64();
    lemma2_to64_rest();
    number_of_digits(addr as nat, 8, 6);
}

/// A Bluetooth dial address in the one way that they are written comes out of
/// its room code letter for letter.
pub proof fn bluetooth_dial_round_trip(addr: u64, channel: u32)
    requires
        1 <= channel <= 30,
        addr < 0x1_0000_0000_0000,
    ensures
        ({
            let dial = bluetooth::addr_text(addr as nat) + ":"@ + dec(channel as nat);
            &&& encoded(TransportKind::Bluetooth, dial) is Ok
            &&& decoded(encoded(TransportKind::Bluetooth, dial)->Ok_0) == Ok::<
                (TransportKind, Seq<char>),
                ErrorView,
            >((TransportKind::Bluetooth, dial))
        }),
{
    bluetooth::dial_text_reads_back(addr, channel);
    bluetooth_round_trip(
        bluetooth::addr_text(addr as nat) + ":"@ + dec(channel as nat),
        addr,
        channel,
    );
}

/// Dashes, spaces and any other punctuation are ignored, wherever they stand.
pub proof fn punctuation_is_ignored(before: Seq<char>, c: char, after: Seq<char>)
    requires
        !alnum_char(c),
    ensures
        decoded(before + seq![c] + after) == decoded(before + after),
        canonical(before + seq![c] + after) == canonical(before + after),
{
    cleaned_one(c);
    cleaned_adds(before, seq![c]);
    cleaned_adds(before + seq![c], after);
    cleaned_adds(before, after);
    assert(cleaned(before) + Seq::<char>::empty() + cleaned(after) =~= cleaned(before) + cleaned(
        after,
    ));
}

/// Letter case is ignored.
pub proof fn case_is_ignored(code: Seq<char>)
    ensures
        decoded(lower_all(code)) == decoded(code),
        decoded(upper_all(code)) == decoded(code),
        canonical(lower_all(code)) == canonical(code),
        canonical(upper_all(code)) == canonical(code),
{
    case_is_cleaned(code);
}

proof fn case_is_cleaned(code: Seq<char>)
    ensures
        cleaned(lower_all(code)) == cleaned(code),
        cleaned(upper_all(code)) == cleaned(code),
    decreases code.len(),
{
    if code.len() == 0 {
        assert(lower_all(code) =~= code);
        assert(upper_all(code) =~= code);
    } else {
        let t = code.drop_last();
        let c = code.last();
        case_is_cleaned(t);
        cleaned_one(c);
        cleaned_one(lower(c));
        cleaned_one(upper(c));
        cleaned_adds(t, seq![c]);
        cleaned_adds(lower_all(t), seq![lower(c)]);
        cleaned_adds(upper_all(t), seq![upper(c)]);
        assert(code =~= t + seq![c]);
        assert(lower_all(code) =~= lower_all(t) + seq![lower(c)]);
        assert(upper_all(code) =~= upper_all(t) + seq![upper(c)]);
    }
}

proof fn bad_symbol_same(s: Seq<char>, t: Seq<char>)
    requires
        s.len() == t.len(),
        forall|i: int| 0 <= i < s.len() ==> folded(#[trigger] s[i]) == folded(t[i]),
    ensures
        bad_symbol(s) == bad_symbol(t),
    decreases s.len(),
{
    if s.len() > 0 {
        assert(folded(s[0]) == folded(t[0]));
        assert forall|i: int| 0 <= i < s.skip(1).len() implies folded(#[trigger] s.skip(1)[i])
            == folded(t.skip(1)[i]) by {
            assert(folded(s[i + 1]) == folded(t[i + 1]));
        }
        bad_symbol_same(s.skip(1), t.skip(1));
    }
}

/// Behind the tag, letters and digits that are mistaken for one another (`I`
/// and `L` for `1`, `O` for `0`, in either case) name the same room.
pub proof fn lookalikes_are_folded(before: Seq<char>, c: char, d: char, after: Seq<char>)
    requires
        cleaned(before).len() > 0,
        alnum_char(c),
        alnum_char(d),
        folded(c) == folded(d),
    ensures
        decoded(before + seq![c] + after) == decoded(before + seq![d] + after),
        canonical(before + seq![c] + after) == canonical(before + seq![d] + after),
{
    cleaned_one(c);
    cleaned_one(d);
    cleaned_adds(before, seq![c]);
    cleaned_adds(before, seq![d]);
    cleaned_adds(before + seq![c], after);
    cleaned_adds(before + seq![d], after);
    let x = cleaned(before + seq![c] + after);
    let y = cleaned(before + seq![d] + after);
    let s = x.skip(1);
    let t = y.skip(1);
    assert(x[0] == y[0]);
    assert forall|i: int| 0 <= i < s.len() implies folded(#[trigger] s[i]) == folded(t[i]) by {
        if i + 1 == cleaned(before).len() {
            assert(x[i + 1] == upper(c));
            assert(y[i + 1] == upper(d));
        } else {
            assert(x[i + 1] == y[i + 1]);
        }
    }
    assert(canonical(before + seq![c] + after) =~= canonical(before + seq![d] + after)) by {
        assert forall|i: int| 1 <= i < x.len() implies folded(#[trigger] x[i]) == folded(y[i]) by {
            assert(folded(s[i - 1]) == folded(t[i - 1]));
        }
    }
    same_room(before + seq![c] + after, before + seq![d] + after);
}

/// Codes with the same spelling lead to the same place.
pub proof fn same_room(a: Seq<char>, b: Seq<char>)
    requires
        canonical(a) == canonical(b),
    ensures
        decoded(a) == decoded(b),
{
    let x = cleaned(a);
    let y = cleaned(b);
    assert(canonical(a).len() == x.len() && canonical(b).len() == y.len());
    if x.len() > 0 {
        assert(canonical(a)[0] == x[0] && canonical(b)[0] == y[0]);
        let s = x.skip(1);
        let t = y.skip(1);
        assert forall|i: int| 0 <= i < s.len() implies folded(#[trigger] s[i]) == folded(t[i]) by {
            assert(canonical(a)[i + 1] == folded(x[i + 1]));
            assert(canonical(b)[i + 1] == folded(y[i + 1]));
        }
        bad_symbol_same(s, t);
        assert(symbol_values(s) =~= symbol_values(t)) by {
            assert forall|i: int| 0 <= i < s.len() implies symbol_value(s[i]) == symbol_value(
                t[i],
            ) by {
                assert(folded(s[i]) == folded(t[i]));
            }
        }
    }
}

proof fn front_is_ignored(s: Seq<char>)
    ensures
        cleaned(strip_front(s, |c: char| white_char(c))) == cleaned(s),
    decreases s.len(),
{
    if s.len() > 0 && white_char(s[0]) {
        front_is_ignored(s.skip(1));
        cleaned_one(s[0]);
        cleaned_adds(seq![s[0]], s.skip(1));
        assert(seq![s[0]] + s.skip(1) =~= s);
        assert(Seq::<char>::empty() + cleaned(s.skip(1)) =~= cleaned(s.skip(1)));
    }
}

proof fn back_is_ignored(s: Seq<char>)
    ensures
        cleaned(strip_back(s, |c: char| white_char(c))) == cleaned(s),
    decreases s.len(),
{
    if s.len() > 0 && white_char(s.last()) {
        back_is_ignored(s.drop_last());
        cleaned_one(s.last());
        cleaned_adds(s.drop_last(), seq![s.last()]);
        assert(s.drop_last() + seq![s.last()] =~= s);
        assert(cleaned(s.drop_last()) + Seq::<char>::empty() =~= cleaned(s.drop_last()));
    }
}

/// Space around a code is ignored.
pub proof fn space_around_is_ignored(code: Seq<char>)
    ensures
        decoded(trimmed(code)) == decoded(code),
        canonical(trimmed(code)) == canonical(code),
{
    front_is_ignored(code);
    back_is_ignored(strip_front(code, |c: char| white_char(c)));
}

} // verus!
