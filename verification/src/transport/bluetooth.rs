//! Bluetooth addresses.
//!
//! A Bluetooth peer is dialled by the 48-bit address of its radio and an
//! RFCOMM channel, both of which come out of the room code; nothing is ever
//! looked up.

use vstd::prelude::*;
use vstd::arithmetic::power2::*;

use crate::digits::{
    digits, digits_in_base, digits_len, digits_step, in_base, number, number_bound,
    number_of_digits,
};
use crate::error::{plain, Error, ErrorView};
use crate::text::{
    all_kept, cat3, cat6, chars_of, dec, dec_text, dec_value_of_dec, digit_char, find_last, hex_char,
    hex_digit_value, hex_upper, hex_value, is_hex, last_at, last_at_between, number_up_to,
    parse_u32, slice_text, upper_hex_digit,
};

verus! {

/// Service channel we prefer. Also the value published in the room code when
/// the bind succeeds. Range 1..=30 for RFCOMM.
pub const RFCOMM_CHANNEL: u32 = 25;

/// Service class UUID for this application. The room code carries the channel
/// directly, so neither side ever performs a service lookup.
pub const SERVICE_UUID: &'static str = "7f2d1c40-9c1e-4c4e-9b6a-2f1c4a8d5e01";

/// The failure reported where the platform has no RFCOMM sockets.
pub fn unavailable() -> (r: Error)
    ensures
        r@ == ErrorView::Unsupported(
            "Bluetooth mode is only available in the Windows build of this application"@,
        ),
{
    Error::Unsupported(
        "Bluetooth mode is only available in the Windows build of this application".to_owned(),
    )
}

/// "Whichever channel is free", to the Bluetooth stack.
pub const BT_PORT_ANY: u32 = 0xFFFF_FFFF;

/// The channel to bind at each attempt: the well-known one first, then
/// whatever is free.
pub fn bind_channel(attempt: u8) -> (r: Option<u32>)
    ensures
        r == if attempt == 0 {
            Some(RFCOMM_CHANNEL)
        } else if attempt == 1 {
            Some(BT_PORT_ANY)
        } else {
            None
        },
{
    if attempt == 0 {
        Some(RFCOMM_CHANNEL)
    } else if attempt == 1 {
        Some(BT_PORT_ANY)
    } else {
        None
    }
}

/// The channel that goes into the room code, where `bound` was asked for and
/// the stack reports this one: the one actually in use. Where it is not told,
/// that is known only if our own channel was bound.
pub fn channel_in_use(bound: u32, reported: Option<u32>) -> (r: Option<u32>)
    ensures
        r == match reported {
            Some(c) if c != 0 && c != BT_PORT_ANY => Some(c),
            _ => if bound == RFCOMM_CHANNEL {
                Some(RFCOMM_CHANNEL)
            } else {
                None
            },
        },
{
    match reported {
        Some(c) if c != 0 && c != BT_PORT_ANY => Some(c),
        _ => if bound == RFCOMM_CHANNEL {
            Some(RFCOMM_CHANNEL)
        } else {
            None
        },
    }
}

/// The failure reported where it is not known which channel we listen on.
pub fn unknown_channel() -> (r: Error)
    ensures
        r@ == ErrorView::Unsupported(
            "the Bluetooth stack does not tell which channel it assigned"@,
        ),
{
    Error::Unsupported("the Bluetooth stack does not tell which channel it assigned".to_owned())
}

/// The dial address of a radio that listens on `channel`.
pub fn listen_address(radio: u64, channel: u32) -> (r: String)
    ensures
        r@ == addr_text(radio as nat) + ":"@ + dec(channel as nat),
{
    cat3(&format_addr(radio), ":", &dec_text(channel as u64))
}

/// A read timeout as the socket option takes it: no timeout is zero.
pub fn timeout_option(millis: Option<u64>) -> (r: u32)
    ensures
        r == match millis {
            None => 0,
            Some(m) => if m > u32::MAX {
                u32::MAX as int
            } else {
                m as int
            },
        },
{
    match millis {
        None => 0,
        Some(m) => {
            if m > 0xffff_ffff {
                0xffff_ffff
            } else {
                m as u32
            }
        },
    }
}

/// There is no radio.
pub fn no_radio() -> (r: Error)
    ensures
        r@ == ErrorView::Unsupported(
            "no Bluetooth radio found on this machine (is Bluetooth switched on?)"@,
        ),
{
    Error::Unsupported(
        "no Bluetooth radio found on this machine (is Bluetooth switched on?)".to_owned(),
    )
}

/// The radio does not say what its address is.
pub fn unreadable_radio(code: u32) -> (r: Error)
    ensures
        r@ == ErrorView::Unsupported(
            "could not read the local Bluetooth radio information (Windows error "@ + dec(
                code as nat,
            ) + ")"@,
        ),
{
    Error::Unsupported(
        cat3(
            "could not read the local Bluetooth radio information (Windows error ",
            &dec_text(code as u64),
            ")",
        ),
    )
}

/// There is no socket to listen on.
pub fn no_listening_socket(e: &str) -> (r: Error)
    ensures
        r@ == ErrorView::Unsupported(
            "could not create a Bluetooth socket ("@ + e@
                + "). The Microsoft Bluetooth stack is required."@,
        ),
{
    Error::Unsupported(
        cat3(
            "could not create a Bluetooth socket (",
            e,
            "). The Microsoft Bluetooth stack is required.",
        ),
    )
}

/// There is no socket to dial with.
pub fn no_dialling_socket(e: &str) -> (r: Error)
    ensures
        r@ == ErrorView::Unsupported("could not create a Bluetooth socket ("@ + e@ + ")"@),
{
    Error::Unsupported(cat3("could not create a Bluetooth socket (", e, ")"))
}

/// A device does not answer.
pub fn unreachable_device(target: u64, channel: u32, e: &str) -> (r: Error)
    ensures
        r@ == ErrorView::Closed(
            "could not reach Bluetooth device "@ + addr_text(target as nat) + " on channel "@ + dec(
                channel as nat,
            ) + " ("@ + e@
                + "). Make sure the two devices are paired in Windows Settings and that the host is waiting for a joiner."@,
        ),
{
    let mut text = cat6(
        "could not reach Bluetooth device ",
        &format_addr(target),
        " on channel ",
        &dec_text(channel as u64),
        " (",
        e,
    );
    text.append(
        "). Make sure the two devices are paired in Windows Settings and that the host is waiting for a joiner.",
    );
    Error::Closed(text)
}

/// A 48-bit address as twelve hexadecimal digits.
pub open spec fn addr_text(addr: nat) -> Seq<char> {
    Seq::new(12, |i: int| hex_upper(digits(addr, 16, 12)[i]))
}

/// The hexadecimal digits in `s`.
pub open spec fn hex_part(s: Seq<char>) -> Seq<char> {
    s.filter(|c: char| hex_char(c))
}

pub open spec fn hex_values(s: Seq<char>) -> Seq<nat> {
    Seq::new(s.len(), |i: int| hex_value(s[i]))
}

/// The address that `s` writes, punctuation aside.
pub open spec fn addr_of(s: Seq<char>) -> Result<u64, ErrorView> {
    if hex_part(s).len() == 12 {
        Ok(number(hex_values(hex_part(s)), 16) as u64)
    } else {
        Err(ErrorView::RoomCode("'"@ + s + "' is not a 12 hex digit Bluetooth address"@))
    }
}

/// The address and channel that a dial string `ADDRESS:CHANNEL` names.
pub open spec fn dial_of(s: Seq<char>) -> Result<(u64, u32), ErrorView> {
    let colon = last_at(s, ':');
    if colon < 0 {
        Err(ErrorView::RoomCode("'"@ + s + "' is not ADDRESS:CHANNEL"@))
    } else {
        match addr_of(s.take(colon)) {
            Err(e) => Err(e),
            Ok(addr) => match number_up_to(s.skip(colon + 1), u32::MAX as nat) {
                Some(n) => Ok((addr, n as u32)),
                None => Err(
                    ErrorView::RoomCode(
                        "'"@ + s.skip(colon + 1) + "' is not a valid RFCOMM channel"@,
                    ),
                ),
            },
        }
    }
}

/// The last `len` hexadecimal digits of `v`, in capitals.
fn hex_tail(v: u64, len: u64) -> (r: String)
    ensures
        r@ == Seq::new(len as nat, |i: int| hex_upper(digits(v as nat, 16, len as nat)[i])),
    decreases len,
{
    if len == 0 {
        String::new()
    } else {
        let mut out = hex_tail(v / 16, len - 1);
        out.push(upper_hex_digit((v % 16) as u8));
        proof {
            digits_len((v / 16) as nat, 16, (len - 1) as nat);
            assert(out@ =~= Seq::new(
                len as nat,
                |i: int| hex_upper(digits(v as nat, 16, len as nat)[i]),
            ));
        }
        out
    }
}

/// Format a 48-bit address as `AABBCCDDEEFF`.
pub fn format_addr(addr: u64) -> (r: String)
    ensures
        r@ == addr_text(addr as nat),
{
    let r = hex_tail(addr, 12);
    assert(r@ =~= addr_text(addr as nat));
    r
}

proof fn pow2_4()
    ensures
        pow2(4) == 16,
        pow2(44) == 0x1000_0000_0000,
        pow2(48) == 0x1_0000_0000_0000,
{
    lemma2_to64();
    lemma2_to64_rest();
}

/// Parse `AABBCCDDEEFF`, `AA:BB:CC:DD:EE:FF` or `AA-BB-...` into 48 bits.
pub fn parse_addr(s: &str) -> (r: Result<u64, Error>)
    ensures
        plain(r) == addr_of(s@),
        r matches Ok(a) ==> a < 0x1_0000_0000_0000,
{
    let v = chars_of(s);
    let ghost keep = |c: char| hex_char(c);
    let mut found: Vec<char> = Vec::new();
    let mut i: usize = 0;
    assert(v@.take(0).filter(keep) =~= Seq::<char>::empty()) by {
        reveal(Seq::filter);
        assert(v@.take(0) =~= Seq::<char>::empty());
    }
    while i < v.len()
        invariant
            i <= v@.len(),
            keep == (|c: char| hex_char(c)),
            found@ == v@.take(i as int).filter(keep),
            forall|j: int| 0 <= j < found@.len() ==> hex_char(#[trigger] found@[j]),
        decreases v@.len() - i,
    {
        proof {
            reveal(Seq::filter);
            assert(v@.take(i + 1).drop_last() =~= v@.take(i as int));
            assert(v@.take(i + 1).last() == v@[i as int]);
        }
        if is_hex(v[i]) {
            found.push(v[i]);
        }
        i += 1;
    }
    assert(v@.take(i as int) =~= v@);
    assert(found@ == hex_part(s@));
    if found.len() != 12 {
        return Err(Error::RoomCode(cat3("'", s, "' is not a 12 hex digit Bluetooth address")));
    }
    let ghost all = hex_values(found@);
    let mut addr: u64 = 0;
    let mut k: usize = 0;
    assert(all.take(0) =~= Seq::<nat>::empty());
    proof {
        pow2_4();
    }
    while k < 12
        invariant
            k <= 12,
            found@.len() == 12,
            all == hex_values(found@),
            forall|j: int| 0 <= j < found@.len() ==> hex_char(#[trigger] found@[j]),
            addr == number(all.take(k as int), 16),
            in_base(all, 16),
            pow2(4) == 16,
            pow2(48) == 0x1_0000_0000_0000,
        decreases 12 - k,
    {
        proof {
            let t = all.take(k as int);
            assert forall|j: int| 0 <= j < t.len() implies #[trigger] t[j] < 16 by {
                assert(all[j] < 16);
            }
            number_bound(t, 4);
            if 4 * k < 44 {
                lemma_pow2_strictly_increases((4 * k) as nat, 44);
            }
            pow2_4();
            assert(addr < 0x1000_0000_0000);
            assert(all.take(k + 1) =~= t.push(all[k as int]));
            digits_step(t, all[k as int], 16);
        }
        addr = addr * 16 + hex_digit_value(found[k]) as u64;
        k += 1;
    }
    proof {
        assert(all.take(12) =~= all);
        number_bound(all, 4);
    }
    Ok(addr)
}

/// Split a dial string `AABBCCDDEEFF:CHANNEL`.
pub fn parse_dial(s: &str) -> (r: Result<(u64, u32), Error>)
    ensures
        plain(r) == dial_of(s@),
        r matches Ok(d) ==> d.0 < 0x1_0000_0000_0000,
{
    let v = chars_of(s);
    let len: usize = v.len();
    match find_last(&v, ':') {
        None => Err(Error::RoomCode(cat3("'", s, "' is not ADDRESS:CHANNEL"))),
        Some(colon) => {
            let mac = slice_text(&v, 0, colon);
            assert(v@.subrange(0, colon as int) =~= s@.take(colon as int));
            let addr = match parse_addr(&mac) {
                Ok(a) => a,
                Err(e) => {
                    return Err(e);
                },
            };
            match parse_u32(&v, colon + 1) {
                Some(n) => Ok((addr, n)),
                None => {
                    let chan = slice_text(&v, colon + 1, len);
                    assert(v@.subrange(colon + 1, v@.len() as int) =~= s@.skip(colon + 1));
                    Err(Error::RoomCode(cat3("'", &chan, "' is not a valid RFCOMM channel")))
                },
            }
        },
    }
}

/// A radio address that was written down reads back as it was.
pub proof fn addr_text_reads_back(addr: u64)
    requires
        addr < 0x1_0000_0000_0000,
    ensures
        addr_of(addr_text(addr as nat)) == Ok::<u64, ErrorView>(addr),
{
    pow2_4();
    let d = digits(addr as nat, 16, 12);
    digits_len(addr as nat, 16, 12);
    digits_in_base(addr as nat, 16, 12);
    let t = addr_text(addr as nat);
    assert forall|i: int| 0 <= i < t.len() implies hex_char(#[trigger] t[i]) by {
        assert(d[i] < 16);
    }
    all_kept(t, |c: char| hex_char(c));
    assert forall|i: int| 0 <= i < 12 implies #[trigger] hex_values(t)[i] == d[i] by {
        assert(d[i] < 16);
    }
    assert(hex_values(t) =~= d);
    number_of_digits(addr as nat, 4, 12);
}

/// A dial string that was written down reads back as it was.
pub proof fn dial_text_reads_back(addr: u64, channel: u32)
    requires
        addr < 0x1_0000_0000_0000,
    ensures
        dial_of(addr_text(addr as nat) + ":"@ + dec(channel as nat)) == Ok::<
            (u64, u32),
            ErrorView,
        >((addr, channel)),
{
    reveal_strlit(":");
    assert(":"@ =~= seq![':']);
    let a = addr_text(addr as nat);
    let c = dec(channel as nat);
    let s = a + seq![':'] + c;
    addr_text_reads_back(addr);
    dec_value_of_dec(channel as nat);
    assert forall|i: int| 0 <= i < c.len() implies c[i] != ':' && c[i] != '+' by {
        assert(digit_char(c[i]));
    }
    last_at_between(a, ':', c);
    assert(s.take(a.len() as int) =~= a);
    assert(s.skip((a.len() + 1) as int) =~= c);
}

} // verus!
