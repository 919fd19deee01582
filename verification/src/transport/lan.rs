//! LAN addresses.
//!
//! A LAN peer is dialled by an IPv4 address and a TCP port. This module reads
//! the text of a socket address: which text is one at all, and which of them
//! a room code can carry.

use vstd::prelude::*;

use crate::error::{plain, Error, ErrorView};
use crate::text::{
    all_digits, cat3, cat5, cat6, chars_of, dec, dec_leads, dec_text, dec_value, dec_value_of_dec,
    digit_char, digits_value, find_last, hex_char, is_hex, last_at, last_at_between,
};

verus! {

/// Where the first `c` of `s` stands, or -1.
pub open spec fn first_at(s: Seq<char>, c: char) -> int
    decreases s.len(),
{
    if s.len() == 0 {
        -1
    } else if s[0] == c {
        0
    } else {
        let r = first_at(s.skip(1), c);
        if r < 0 {
            -1
        } else {
            r + 1
        }
    }
}

/// What `first_at` says, told by positions.
pub proof fn first_at_is_first(s: Seq<char>, c: char)
    ensures
        -1 <= first_at(s, c) < s.len(),
        first_at(s, c) >= 0 ==> s[first_at(s, c)] == c,
        forall|i: int| 0 <= i < first_at(s, c) ==> s[i] != c,
        first_at(s, c) < 0 ==> !s.contains(c),
    decreases s.len(),
{
    if s.len() > 0 && s[0] != c {
        first_at_is_first(s.skip(1), c);
        let r = first_at(s, c);
        assert forall|i: int| 0 <= i < r implies s[i] != c by {
            if i > 0 {
                assert(s.skip(1)[i - 1] == s[i]);
            }
        }
        if r < 0 && s.contains(c) {
            let i = choose|i: int| 0 <= i < s.len() && s[i] == c;
            assert(s.skip(1)[i - 1] == c);
        }
    }
}

/// One part of a dotted address: up to three digits, no leading zero.
pub open spec fn octet_of(s: Seq<char>) -> Option<u8> {
    if 1 <= s.len() <= 3 && all_digits(s) && (s.len() == 1 || s[0] != '0') && dec_value(s) <= 255 {
        Some(dec_value(s) as u8)
    } else {
        None
    }
}

/// `n` parts with dots between them.
pub open spec fn octets_of(s: Seq<char>, n: nat) -> Option<Seq<u8>>
    decreases n,
{
    if n <= 1 {
        match octet_of(s) {
            Some(a) => Some(seq![a]),
            None => None,
        }
    } else {
        let dot = first_at(s, '.');
        if dot < 0 {
            None
        } else {
            match (octet_of(s.take(dot)), octets_of(s.skip(dot + 1), (n - 1) as nat)) {
                (Some(a), Some(rest)) => Some(seq![a] + rest),
                _ => None,
            }
        }
    }
}

/// A port: digits only, in range.
pub open spec fn port_of(s: Seq<char>) -> Option<u16> {
    if s.len() > 0 && all_digits(s) && dec_value(s) <= 65535 {
        Some(dec_value(s) as u16)
    } else {
        None
    }
}

/// An IPv4 address and port, `a.b.c.d:port`.
pub open spec fn v4_of(s: Seq<char>) -> Option<(Seq<u8>, u16)> {
    let colon = last_at(s, ':');
    if colon < 0 {
        None
    } else {
        match (octets_of(s.take(colon), 4), port_of(s.skip(colon + 1))) {
            (Some(o), Some(p)) => Some((o, p)),
            _ => None,
        }
    }
}

/// One group of an IPv6 address: up to four hexadecimal digits.
pub open spec fn hextet(s: Seq<char>) -> bool {
    1 <= s.len() <= 4 && forall|i: int| 0 <= i < s.len() ==> hex_char(#[trigger] s[i])
}

/// How many 16-bit groups a list `g:g:...` writes, where the last member may
/// be a dotted address (which counts as two groups) if `dotted` allows it.
pub open spec fn groups_of(s: Seq<char>, dotted: bool) -> Option<nat>
    decreases s.len(),
{
    let colon = first_at(s, ':');
    if colon < 0 || colon >= s.len() {
        if hextet(s) {
            Some(1)
        } else if dotted && octets_of(s, 4) is Some {
            Some(2)
        } else {
            None
        }
    } else if !hextet(s.take(colon)) {
        None
    } else {
        match groups_of(s.skip(colon + 1), dotted) {
            Some(n) => Some(n + 1),
            None => None,
        }
    }
}

/// Where the first `::` of `s` stands, or -1.
pub open spec fn gap_at(s: Seq<char>) -> int
    decreases s.len(),
{
    if s.len() < 2 {
        -1
    } else if s[0] == ':' && s[1] == ':' {
        0
    } else {
        let r = gap_at(s.skip(1));
        if r < 0 {
            -1
        } else {
            r + 1
        }
    }
}

/// A list of groups that may be empty.
pub open spec fn side_of(s: Seq<char>, dotted: bool) -> Option<nat> {
    if s.len() == 0 {
        Some(0)
    } else {
        groups_of(s, dotted)
    }
}

/// The text of an IPv6 address.
pub open spec fn v6_addr(s: Seq<char>) -> bool {
    let gap = gap_at(s);
    if gap < 0 {
        groups_of(s, true) == Some(8nat)
    } else {
        match (side_of(s.take(gap), false), side_of(s.skip(gap + 2), true)) {
            (Some(h), Some(t)) => h + t <= 7,
            _ => false,
        }
    }
}

/// The text of an IPv6 address with an optional numeric scope.
pub open spec fn v6_scoped(s: Seq<char>) -> bool {
    let percent = first_at(s, '%');
    if percent < 0 {
        v6_addr(s)
    } else {
        let scope = s.skip(percent + 1);
        &&& v6_addr(s.take(percent))
        &&& scope.len() > 0
        &&& all_digits(scope)
        &&& dec_value(scope) <= 0xffff_ffff
    }
}

/// An IPv6 address and port, `[address]:port`.
pub open spec fn v6_socket(s: Seq<char>) -> bool {
    let close = first_at(s, ']');
    &&& close >= 1
    &&& s[0] == '['
    &&& v6_scoped(s.subrange(1, close))
    &&& close + 1 < s.len()
    &&& s[close + 1] == ':'
    &&& port_of(s.skip(close + 2)) is Some
}

/// An IPv4 address and port, written down.
pub open spec fn v4_text(o: Seq<u8>, port: u16) -> Seq<char> {
    dec(o[0] as nat) + "."@ + dec(o[1] as nat) + "."@ + dec(o[2] as nat) + "."@ + dec(o[3] as nat)
        + ":"@ + dec(port as nat)
}

/// The first `c` in `from..to`.
fn find_first(v: &Vec<char>, from: usize, to: usize, c: char) -> (r: Option<usize>)
    requires
        from <= to <= v@.len(),
    ensures
        match r {
            Some(i) => from <= i < to && i - from == first_at(
                v@.subrange(from as int, to as int),
                c,
            ),
            None => first_at(v@.subrange(from as int, to as int), c) == -1,
        },
    decreases to - from,
{
    if from == to {
        None
    } else {
        assert(v@.subrange(from as int, to as int).skip(1) =~= v@.subrange(from + 1, to as int));
        if v[from] == c {
            Some(from)
        } else {
            proof {
                first_at_is_first(v@.subrange(from + 1, to as int), c);
            }
            find_first(v, from + 1, to, c)
        }
    }
}

fn octet(v: &Vec<char>, from: usize, to: usize) -> (r: Option<u8>)
    requires
        from <= to <= v@.len(),
    ensures
        r == octet_of(v@.subrange(from as int, to as int)),
{
    let ghost s = v@.subrange(from as int, to as int);
    let len: usize = to - from;
    if len == 0 || len > 3 {
        return None;
    }
    assert(s[0] == v@[from as int]);
    if len > 1 && v[from] == '0' {
        return None;
    }
    match digits_value(v, from, to, 255) {
        Some(n) => Some(n as u8),
        None => None,
    }
}

fn octets(v: &Vec<char>, from: usize, to: usize, n: u64) -> (r: Option<Vec<u8>>)
    requires
        from <= to <= v@.len(),
        n >= 1,
    ensures
        match r {
            Some(o) => octets_of(v@.subrange(from as int, to as int), n as nat) == Some(o@)
                && o@.len() == n,
            None => octets_of(v@.subrange(from as int, to as int), n as nat) is None,
        },
    decreases n,
{
    let ghost s = v@.subrange(from as int, to as int);
    if n == 1 {
        match octet(v, from, to) {
            Some(a) => {
                let out: Vec<u8> = vec![a];
                assert(out@ =~= seq![a]);
                Some(out)
            },
            None => None,
        }
    } else {
        match find_first(v, from, to, '.') {
            None => None,
            Some(dot) => {
                assert(s.take(dot - from) =~= v@.subrange(from as int, dot as int));
                assert(s.skip(dot - from + 1) =~= v@.subrange(dot + 1, to as int));
                match (octet(v, from, dot), octets(v, dot + 1, to, n - 1)) {
                    (Some(a), Some(rest)) => {
                        let mut tail = rest;
                        let mut out: Vec<u8> = vec![a];
                        assert(out@ =~= seq![a]);
                        out.append(&mut tail);
                        Some(out)
                    },
                    _ => None,
                }
            },
        }
    }
}

fn port(v: &Vec<char>, from: usize) -> (r: Option<u16>)
    requires
        from <= v@.len(),
    ensures
        r == port_of(v@.skip(from as int)),
{
    assert(v@.subrange(from as int, v@.len() as int) =~= v@.skip(from as int));
    match digits_value(v, from, v.len(), 65535) {
        Some(n) => Some(n as u16),
        None => None,
    }
}

/// Reads `a.b.c.d:port`.
pub fn parse_v4(v: &Vec<char>) -> (r: Option<(Vec<u8>, u16)>)
    ensures
        match r {
            Some(a) => v4_of(v@) == Some((a.0@, a.1)) && a.0@.len() == 4,
            None => v4_of(v@) is None,
        },
{
    let len: usize = v.len();
    match find_last(v, ':') {
        None => None,
        Some(colon) => {
            assert(v@.subrange(0, colon as int) =~= v@.take(colon as int));
            match (octets(v, 0, colon, 4), port(v, colon + 1)) {
                (Some(o), Some(p)) => Some((o, p)),
                _ => None,
            }
        },
    }
}

fn is_hextet(v: &Vec<char>, from: usize, to: usize) -> (r: bool)
    requires
        from <= to <= v@.len(),
    ensures
        r == hextet(v@.subrange(from as int, to as int)),
{
    let ghost s = v@.subrange(from as int, to as int);
    if to - from == 0 || to - from > 4 {
        return false;
    }
    let mut i: usize = from;
    while i < to
        invariant
            from <= i <= to <= v@.len(),
            s == v@.subrange(from as int, to as int),
            forall|j: int| 0 <= j < i - from ==> hex_char(#[trigger] s[j]),
        decreases to - i,
    {
        assert(s[i - from] == v@[i as int]);
        if !is_hex(v[i]) {
            return false;
        }
        i += 1;
    }
    true
}

fn groups(v: &Vec<char>, from: usize, to: usize, dotted: bool) -> (r: Option<usize>)
    requires
        from <= to <= v@.len(),
    ensures
        match r {
            Some(n) => groups_of(v@.subrange(from as int, to as int), dotted) == Some(n as nat)
                && n <= to - from + 1,
            None => groups_of(v@.subrange(from as int, to as int), dotted) is None,
        },
    decreases to - from,
{
    let ghost s = v@.subrange(from as int, to as int);
    match find_first(v, from, to, ':') {
        None => {
            if is_hextet(v, from, to) {
                Some(1)
            } else if dotted {
                let o = octets(v, from, to, 4);
                match o {
                    Some(_) => {
                        assert(to > from) by {
                            if to == from {
                                assert(first_at(s, '.') == -1);
                            }
                        }
                        Some(2)
                    },
                    None => None,
                }
            } else {
                None
            }
        },
        Some(colon) => {
            assert(s.take(colon - from) =~= v@.subrange(from as int, colon as int));
            assert(s.skip(colon - from + 1) =~= v@.subrange(colon + 1, to as int));
            if !is_hextet(v, from, colon) {
                None
            } else {
                match groups(v, colon + 1, to, dotted) {
                    Some(n) => Some(n + 1),
                    None => None,
                }
            }
        },
    }
}

fn gap(v: &Vec<char>, from: usize, to: usize) -> (r: Option<usize>)
    requires
        from <= to <= v@.len(),
    ensures
        match r {
            Some(i) => from <= i && i + 2 <= to && i - from == gap_at(
                v@.subrange(from as int, to as int),
            ),
            None => gap_at(v@.subrange(from as int, to as int)) == -1,
        },
    decreases to - from,
{
    if to - from < 2 {
        None
    } else {
        assert(v@.subrange(from as int, to as int).skip(1) =~= v@.subrange(from + 1, to as int));
        if v[from] == ':' && v[from + 1] == ':' {
            Some(from)
        } else {
            gap(v, from + 1, to)
        }
    }
}

fn side(v: &Vec<char>, from: usize, to: usize, dotted: bool) -> (r: Option<usize>)
    requires
        from <= to <= v@.len(),
    ensures
        match r {
            Some(n) => side_of(v@.subrange(from as int, to as int), dotted) == Some(n as nat) && n
                <= to - from + 1,
            None => side_of(v@.subrange(from as int, to as int), dotted) is None,
        },
{
    if from == to {
        Some(0)
    } else {
        groups(v, from, to, dotted)
    }
}

fn is_v6(v: &Vec<char>, from: usize, to: usize) -> (r: bool)
    requires
        from <= to <= v@.len(),
    ensures
        r == v6_addr(v@.subrange(from as int, to as int)),
{
    let ghost s = v@.subrange(from as int, to as int);
    match gap(v, from, to) {
        None => match groups(v, from, to, true) {
            Some(n) => n == 8,
            None => false,
        },
        Some(g) => {
            assert(s.take(g - from) =~= v@.subrange(from as int, g as int));
            assert(s.skip(g - from + 2) =~= v@.subrange(g + 2, to as int));
            match (side(v, from, g, false), side(v, g + 2, to, true)) {
                (Some(h), Some(t)) => h <= 7 && t <= 7 - h,
                _ => false,
            }
        },
    }
}

/// Whether the text is `[address]:port` with an IPv6 address.
pub fn is_v6_socket(v: &Vec<char>) -> (r: bool)
    ensures
        r == v6_socket(v@),
{
    let len: usize = v.len();
    assert(v@.subrange(0, v@.len() as int) =~= v@);
    match find_first(v, 0, len, ']') {
        None => false,
        Some(close) => {
            if close == 0 || v[0] != '[' {
                return false;
            }
            let ghost s = v@.subrange(1, close as int);
            let inside = match find_first(v, 1, close, '%') {
                None => is_v6(v, 1, close),
                Some(percent) => {
                    assert(s.take(percent - 1) =~= v@.subrange(1, percent as int));
                    assert(s.skip(percent - 1 + 1) =~= v@.subrange(percent + 1, close as int));
                    let scope = digits_value(v, percent + 1, close, 0xffff_ffff);
                    is_v6(v, 1, percent) && scope.is_some()
                },
            };
            if !inside || close + 1 >= len || v[close + 1] != ':' {
                return false;
            }
            port(v, close + 2).is_some()
        },
    }
}

/// `a.b.c.d:port`, written down.
pub fn format_v4(o: &Vec<u8>, port: u16) -> (r: String)
    requires
        o@.len() == 4,
    ensures
        r@ == v4_text(o@, port),
{
    let mut out = dec_text(o[0] as u64);
    out.append(".");
    out.append(&dec_text(o[1] as u64));
    out.append(".");
    out.append(&dec_text(o[2] as u64));
    out.append(".");
    out.append(&dec_text(o[3] as u64));
    out.append(":");
    out.append(&dec_text(port as u64));
    out
}

/// In a text without `c`, then `c`, then `b`, the first `c` is the one between.
pub proof fn first_at_between(a: Seq<char>, c: char, b: Seq<char>)
    requires
        !a.contains(c),
    ensures
        first_at(a + seq![c] + b, c) == a.len(),
{
    let s = a + seq![c] + b;
    let p = first_at(s, c);
    first_at_is_first(s, c);
    assert(s[a.len() as int] == c);
    if 0 <= p < a.len() {
        assert(s[p] == a[p]);
    }
}

proof fn octet_text(n: u8)
    ensures
        octet_of(dec(n as nat)) == Some(n),
        !dec(n as nat).contains('.'),
        !dec(n as nat).contains(':'),
{
    dec_value_of_dec(n as nat);
    if n > 0 {
        dec_leads(n as nat);
    }
    reveal_with_fuel(dec, 3);
    assert forall|i: int| 0 <= i < dec(n as nat).len() implies dec(n as nat)[i] != '.' && dec(
        n as nat,
    )[i] != ':' by {
        assert(digit_char(dec(n as nat)[i]));
    }
}

proof fn octets_step(a: u8, rest: Seq<char>, n: nat)
    requires
        n > 1,
        octets_of(rest, (n - 1) as nat) is Some,
    ensures
        octets_of(dec(a as nat) + seq!['.'] + rest, n) == Some(
            seq![a] + octets_of(rest, (n - 1) as nat)->0,
        ),
{
    octet_text(a);
    let s = dec(a as nat) + seq!['.'] + rest;
    first_at_between(dec(a as nat), '.', rest);
    let dot = first_at(s, '.');
    assert(s.take(dot) =~= dec(a as nat));
    assert(s.skip(dot + 1) =~= rest);
}

/// How many octets a dotted address has.
pub proof fn octets_len(s: Seq<char>, n: nat)
    requires
        n >= 1,
    ensures
        octets_of(s, n) matches Some(o) ==> o.len() == n,
    decreases n,
{
    if n > 1 {
        octets_len(s.skip(first_at(s, '.') + 1), (n - 1) as nat);
    }
}

/// An address that was written down reads back as it was.
pub proof fn v4_text_reads_back(o: Seq<u8>, port: u16)
    requires
        o.len() == 4,
    ensures
        v4_of(v4_text(o, port)) == Some((o, port)),
{
    reveal_strlit(".");
    reveal_strlit(":");
    assert("."@ =~= seq!['.']);
    assert(":"@ =~= seq![':']);
    let p = dec(port as nat);
    let d3 = dec(o[3] as nat);
    let d2 = dec(o[2] as nat) + seq!['.'] + d3;
    let d1 = dec(o[1] as nat) + seq!['.'] + d2;
    let d0 = dec(o[0] as nat) + seq!['.'] + d1;
    octet_text(o[3]);
    assert(octets_of(d3, 1) == Some(seq![o[3]]));
    octets_step(o[2], d3, 2);
    octets_step(o[1], d2, 3);
    octets_step(o[0], d1, 4);
    assert(octets_of(d0, 4)->0 =~= o);
    let s = v4_text(o, port);
    assert(s =~= d0 + seq![':'] + p);
    dec_value_of_dec(port as nat);
    assert forall|i: int| 0 <= i < p.len() implies p[i] != ':' by {
        assert(digit_char(p[i]));
    }
    last_at_between(d0, ':', p);
    assert(s.take(d0.len() as int) =~= d0);
    assert(s.skip((d0.len() + 1) as int) =~= p);
}

// --- listening and dialling ------------------------------------------------------

/// Four octets in dotted form.
pub open spec fn ip_text(o: Seq<u8>) -> Seq<char> {
    dec(o[0] as nat) + "."@ + dec(o[1] as nat) + "."@ + dec(o[2] as nat) + "."@ + dec(o[3] as nat)
}

/// An address that others can be told: four octets, not all of them zero.
pub open spec fn usable(o: Seq<u8>) -> bool {
    o.len() == 4 && !(o[0] == 0 && o[1] == 0 && o[2] == 0 && o[3] == 0)
}

/// The first usable address that was found, or the loopback address when the
/// machine has no usable route (still fine on the same machine).
pub open spec fn local_text(found: Seq<Option<Seq<u8>>>) -> Seq<char>
    decreases found.len(),
{
    if found.len() == 0 {
        "127.0.0.1"@
    } else {
        match found[0] {
            Some(o) if usable(o) => ip_text(o),
            _ => local_text(found.skip(1)),
        }
    }
}

/// An optional address, as contracts speak of it.
pub open spec fn found_view(found: Seq<Option<Vec<u8>>>) -> Seq<Option<Seq<u8>>> {
    Seq::new(
        found.len(),
        |i: int|
            match found[i] {
                Some(o) => Some(o@),
                None => None,
            },
    )
}

/// Our own IPv4 address, given what each probe found.
pub fn local_ipv4(found: &Vec<Option<Vec<u8>>>) -> (r: String)
    ensures
        r@ == local_text(found_view(found@)),
{
    let ghost all = found_view(found@);
    let mut i: usize = 0;
    assert(all.skip(0) =~= all);
    while i < found.len()
        invariant
            i <= found@.len(),
            all == found_view(found@),
            local_text(all) == local_text(all.skip(i as int)),
        decreases found@.len() - i,
    {
        assert(all.skip(i as int)[0] == all[i as int]);
        if let Some(o) = &found[i] {
            if o.len() == 4 && !(o[0] == 0 && o[1] == 0 && o[2] == 0 && o[3] == 0) {
                let mut text = cat6(
                    &dec_text(o[0] as u64),
                    ".",
                    &dec_text(o[1] as u64),
                    ".",
                    &dec_text(o[2] as u64),
                    ".",
                );
                text.append(&dec_text(o[3] as u64));
                return text;
            }
        }
        assert(all.skip(i as int).skip(1) =~= all.skip(i + 1));
        i += 1;
    }
    "127.0.0.1".to_owned()
}

/// The dial address of an endpoint that listens on `port`.
pub fn listen_address(ip: &str, port: u16) -> (r: String)
    ensures
        r@ == ip@ + ":"@ + dec(port as nat),
{
    cat3(ip, ":", &dec_text(port as u64))
}

/// Whether `addr` can be dialled at all.
pub fn check_address(addr: &str) -> (r: Result<(), Error>)
    ensures
        plain(r) == if v4_of(addr@) is Some || v6_socket(addr@) {
            Ok::<(), ErrorView>(())
        } else {
            Err(ErrorView::RoomCode("'"@ + addr@ + "' is not a valid IPv4 address:port"@))
        },
{
    let v = chars_of(addr);
    if parse_v4(&v).is_some() || is_v6_socket(&v) {
        Ok(())
    } else {
        Err(Error::RoomCode(cat3("'", addr, "' is not a valid IPv4 address:port")))
    }
}

/// Nobody answers at `addr`.
pub fn unreachable_host(addr: &str, e: &str) -> (r: Error)
    ensures
        r@ == ErrorView::Closed(
            "could not reach "@ + addr@ + " over the local network ("@ + e@
                + ") - check that both machines are on the same network and that the host's firewall allows chat.exe"@,
        ),
{
    Error::Closed(
        cat5(
            "could not reach ",
            addr,
            " over the local network (",
            e,
            ") - check that both machines are on the same network and that the host's firewall allows chat.exe",
        ),
    )
}

/// What an endpoint with a usable address is told by is an address that a room
/// code can carry.
pub proof fn a_usable_endpoint_can_be_shared(o: Seq<u8>, port: u16)
    requires
        usable(o),
    ensures
        v4_of(ip_text(o) + ":"@ + dec(port as nat)) == Some((o, port)),
{
    v4_text_reads_back(o, port);
    assert(ip_text(o) + ":"@ + dec(port as nat) =~= v4_text(o, port));
}

} // verus!
