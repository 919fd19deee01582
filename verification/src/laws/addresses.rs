//! What addresses and room codes promise: an address is read in one spelling,
//! and a code is taken apart into nothing that cannot be called.

use vstd::prelude::*;
use vstd::arithmetic::power2::*;

use crate::digits::{byte_digits, digits_len, number, number_bound};
use crate::error::ErrorView;
use crate::history::occurs;
use crate::laws::transfers::a_part_occurs;
use crate::roomcode::{
    addr_in, b32_data, cleaned, decoded, encoded, folded, grouped, lookalikes_are_folded, port_in,
    split_of, symbol, symbol_value, symbol_values,
};
use crate::text::{
    all_digits, dec, dec_digit, dec_value, dec_value_of_dec, digit_char, hex_char, last_at_between,
    last_at_is_last, number_up_to, upper,
};
use crate::transport::bluetooth::{addr_of, dial_of, dial_text_reads_back, hex_part};
use crate::transport::lan::{
    first_at, first_at_between, first_at_is_first, gap_at, groups_of, hextet, ip_text, octet_of,
    octets_len, octets_of, v4_of, v4_text, v4_text_reads_back, v6_addr, v6_socket,
};
use crate::transport::TransportKind;

verus! {

// --- numbers --------------------------------------------------------------------------

proof fn digits_are_a_number(s: Seq<char>)
    requires
        s.len() > 0,
        all_digits(s),
        s.len() > 1 ==> s[0] != '0',
    ensures
        s == dec(dec_value(s)),
        s.len() > 1 ==> dec_value(s) >= 10,
        s.len() == 1 ==> dec_value(s) < 10,
        s[0] != '0' ==> dec_value(s) > 0,
    decreases s.len(),
{
    let t = s.drop_last();
    let n = dec_value(s);
    assert(digit_char(s[s.len() - 1]));
    assert(digit_char(s[0]));
    if s.len() == 1 {
        assert(t =~= Seq::<char>::empty());
        assert(dec_value(t) == 0);
        assert(dec_digit(n as int) == s[0]);
        assert(dec(n) =~= s);
    } else {
        assert(all_digits(t)) by {
            assert forall|i: int| 0 <= i < t.len() implies digit_char(#[trigger] t[i]) by {
                assert(t[i] == s[i]);
            }
        }
        assert(t[0] == s[0]);
        digits_are_a_number(t);
        assert(n / 10 == dec_value(t));
        assert(dec_digit((n % 10) as int) == s.last());
        assert(dec(n) =~= t.push(s.last()));
        assert(t.push(s.last()) =~= s);
    }
}

/// A number that a user may type is read as what it says, with or without a
/// plus sign before it, up to its limit.
pub proof fn a_number_is_read_as_written(n: nat, max: nat)
    ensures
        number_up_to(dec(n), max) is Some <==> n <= max,
        n <= max ==> number_up_to(dec(n), max) == Some(n) && number_up_to(
            seq!['+'] + dec(n),
            max,
        ) == Some(n),
        number_up_to(Seq::empty(), max) is None,
        number_up_to(seq!['-'] + dec(n), max) is None,
{
    dec_value_of_dec(n);
    let d = dec(n);
    assert(digit_char(d[0]));
    let p = seq!['+'] + d;
    assert(p.skip(1) =~= d);
    let m = seq!['-'] + d;
    assert(m[0] == '-' && !digit_char(m[0]));
}

// --- addresses on the local network ---------------------------------------------------------

/// An address is read in one spelling only: what reads as four octets is those
/// four octets written down.
pub proof fn an_address_has_one_spelling(s: Seq<char>, o: Seq<u8>)
    requires
        octets_of(s, 4) == Some(o),
    ensures
        o.len() == 4,
        s == ip_text(o),
{
    octets_len(s, 4);
    reveal_strlit(".");
    let d = seq!['.'];
    assert("."@ =~= d);
    let (a, r1) = one_octet(s, 4);
    let (b, r2) = one_octet(r1, 3);
    let (c, r3) = one_octet(r2, 2);
    assert(octet_of(r3) is Some);
    last_octet(r3);
    assert(octets_of(r3, 1) == Some(seq![octet_of(r3)->0]));
    let e = octet_of(r3)->0;
    assert(o =~= seq![a] + (seq![b] + (seq![c] + seq![e])));
    assert(o[0] == a && o[1] == b && o[2] == c && o[3] == e);
    assert(s =~= dec(a as nat) + d + dec(b as nat) + d + dec(c as nat) + d + dec(e as nat));
}

proof fn last_octet(s: Seq<char>)
    requires
        octet_of(s) is Some,
    ensures
        s == dec(octet_of(s)->0 as nat),
{
    digits_are_a_number(s);
}

proof fn one_octet(s: Seq<char>, n: nat) -> (r: (u8, Seq<char>))
    requires
        n > 1,
        octets_of(s, n) is Some,
    ensures
        s == dec(r.0 as nat) + seq!['.'] + r.1,
        octets_of(r.1, (n - 1) as nat) is Some,
        octets_of(s, n) == Some(seq![r.0] + octets_of(r.1, (n - 1) as nat)->0),
{
    let dot = first_at(s, '.');
    first_at_is_first(s, '.');
    let a = octet_of(s.take(dot))->0;
    let rest = s.skip(dot + 1);
    last_octet(s.take(dot));
    assert(s =~= s.take(dot) + seq!['.'] + rest);
    (a, rest)
}

/// An endpoint is an address in its one spelling, a colon and a port in digits;
/// nothing else is read as one.
pub proof fn an_endpoint_is_an_address_and_a_port(s: Seq<char>, o: Seq<u8>, port: u16)
    requires
        v4_of(s) == Some((o, port)),
    ensures
        o.len() == 4,
        exists|digits: Seq<char>|
            s == #[trigger] (ip_text(o) + seq![':'] + digits) && digits.len() > 0 && all_digits(
                digits,
            ) && dec_value(digits) == port,
{
    let colon = crate::text::last_at(s, ':');
    last_at_is_last(s, ':');
    let digits = s.skip(colon + 1);
    an_address_has_one_spelling(s.take(colon), o);
    assert(s =~= ip_text(o) + seq![':'] + digits);
}

/// Every address with a port in range is read as what it says.
pub proof fn every_endpoint_is_read(o: Seq<u8>, digits: Seq<char>)
    requires
        o.len() == 4,
        digits.len() > 0,
        all_digits(digits),
    ensures
        v4_of(ip_text(o) + seq![':'] + digits) == if dec_value(digits) <= 65535 {
            Some((o, dec_value(digits) as u16))
        } else {
            None
        },
{
    let s = ip_text(o) + seq![':'] + digits;
    assert(!digits.contains(':')) by {
        if digits.contains(':') {
            let i = choose|i: int| 0 <= i < digits.len() && digits[i] == ':';
            assert(digit_char(digits[i]));
        }
    }
    last_at_between(ip_text(o), ':', digits);
    assert(s.take(ip_text(o).len() as int) =~= ip_text(o));
    assert(s.skip(ip_text(o).len() as int + 1) =~= digits);
    // The octets read back whatever the port is.
    v4_text_reads_back(o, 1);
    let t = v4_text(o, 1);
    let p = dec(1);
    dec_value_of_dec(1);
    assert(!p.contains(':')) by {
        if p.contains(':') {
            let i = choose|i: int| 0 <= i < p.len() && p[i] == ':';
            assert(digit_char(p[i]));
        }
    }
    reveal_strlit(":");
    assert(":"@ =~= seq![':']);
    assert(t =~= ip_text(o) + seq![':'] + p);
    last_at_between(ip_text(o), ':', p);
    assert(t.take(ip_text(o).len() as int) =~= ip_text(o));
}

// --- radio addresses ---------------------------------------------------------------------

/// A radio address is its twelve digits: whatever stands between them makes no
/// difference.
pub proof fn only_the_digits_of_a_radio_address_count(before: Seq<char>, c: char, after: Seq<char>)
    requires
        !hex_char(c),
        hex_part(before + after).len() == 12,
    ensures
        addr_of(before + seq![c] + after) == addr_of(before + after),
        addr_of(before + after) is Ok,
{
    let keep = |c: char| hex_char(c);
    reveal(Seq::filter);
    let one = seq![c];
    assert(one.drop_last() =~= Seq::<char>::empty());
    assert(one.last() == c && !keep(c));
    assert(one.filter(keep) == one.drop_last().filter(keep));
    assert(one.filter(keep) =~= Seq::<char>::empty());
    Seq::filter_distributes_over_add(before, one, keep);
    Seq::filter_distributes_over_add(before + one, after, keep);
    Seq::filter_distributes_over_add(before, after, keep);
    assert((before + one + after).filter(keep) =~= (before + after).filter(keep));
}

/// A dial string without a channel, or with an address of another length, or
/// with a channel that is no number, leads nowhere; what was wrong is quoted.
pub proof fn a_bad_dial_string_is_quoted(addr: Seq<char>, channel: Seq<char>)
    requires
        !channel.contains(':'),
    ensures
        ({
            let s = addr + seq![':'] + channel;
            &&& dial_of(s) is Ok <==> hex_part(addr).len() == 12 && number_up_to(
                channel,
                u32::MAX as nat,
            ) is Some
            &&& dial_of(s) matches Ok(d) ==> d.1 == number_up_to(channel, u32::MAX as nat)->0
                && addr_of(addr) == Ok::<u64, ErrorView>(d.0)
            &&& hex_part(addr).len() != 12 ==> (dial_of(s) matches Err(ErrorView::RoomCode(text))
                && occurs(addr, text))
            &&& hex_part(addr).len() == 12 && dial_of(s) is Err ==> (dial_of(s) matches Err(
                ErrorView::RoomCode(text),
            ) && occurs(channel, text))
        }),
        dial_of(channel) is Err,
{
    let s = addr + seq![':'] + channel;
    last_at_between(addr, ':', channel);
    last_at_is_last(channel, ':');
    assert(s.take(addr.len() as int) =~= addr);
    assert(s.skip(addr.len() as int + 1) =~= channel);
    a_part_occurs("'"@, addr, "' is not a 12 hex digit Bluetooth address"@);
    a_part_occurs("'"@, channel, "' is not a valid RFCOMM channel"@);
}

// --- codes ----------------------------------------------------------------------------------

/// An address has a code exactly if it can be called: an IPv4 address and port,
/// or a radio address with a channel from 1 to 30. A code begins with the
/// letter of its transport.
pub proof fn only_what_can_be_called_has_a_code(dial: Seq<char>)
    ensures
        encoded(TransportKind::Lan, dial) is Ok <==> v4_of(dial) is Some,
        encoded(TransportKind::Bluetooth, dial) is Ok <==> (dial_of(dial) matches Ok(d) && 1 <= d.1
            <= 30),
        encoded(TransportKind::Lan, dial) matches Ok(code) ==> code.len() > 2 && code[0] == 'L'
            && code[1] == '-',
        encoded(TransportKind::Bluetooth, dial) matches Ok(code) ==> code.len() > 2 && code[0]
            == 'B' && code[1] == '-',
        encoded(TransportKind::Lan, dial) matches Err(e) ==> e is RoomCode,
        encoded(TransportKind::Bluetooth, dial) matches Err(e) ==> e is RoomCode,
        dial_of(dial) matches Ok(d) ==> !(1 <= d.1 <= 30) ==> (encoded(
            TransportKind::Bluetooth,
            dial,
        ) matches Err(ErrorView::RoomCode(text)) && occurs(dec(d.1 as nat), text)),
        dial_of(dial) matches Err(e) ==> encoded(TransportKind::Bluetooth, dial) == Err::<
            Seq<char>,
            ErrorView,
        >(e),
{
    reveal_strlit("-");
    if let Some(a) = v4_of(dial) {
        an_endpoint_is_an_address_and_a_port(dial, a.0, a.1);
    }
    if let Ok(d) = dial_of(dial) {
        a_part_occurs(
            "RFCOMM channel "@,
            dec(d.1 as nat),
            " is outside the encodable range 1-30"@,
        );
    }
}

/// What a code leads to can be called: an IPv4 address with a port that is not
/// zero, or a radio address with a channel from 1 to 30.
pub proof fn a_code_leads_to_what_can_be_called(code: Seq<char>)
    ensures
        decoded(code) matches Ok(d) ==> match d.0 {
            TransportKind::Lan => v4_of(d.1) matches Some(a) && a.0.len() == 4 && a.1 != 0,
            TransportKind::Bluetooth => dial_of(d.1) matches Ok(a) && 1 <= a.1 <= 30,
        },
        decoded(code) matches Err(e) ==> e is RoomCode,
{
    if let Ok(d) = decoded(code) {
        match d.0 {
            TransportKind::Lan => {
                lan_code_is_an_endpoint(code);
            },
            TransportKind::Bluetooth => {
                bluetooth_code_is_a_dial_string(code);
            },
        }
    }
}

proof fn data_has_its_length(s: Seq<char>, expected: nat)
    ensures
        b32_data(s, expected) matches Ok(b) ==> b.len() == expected,
{
    let k = 5 * s.len() / 8;
    let rest = (5 * s.len() - 8 * k) as nat;
    digits_len(number(symbol_values(s), 32) / pow2(rest), 256, k);
}

proof fn lan_code_is_an_endpoint(code: Seq<char>)
    requires
        decoded(code) matches Ok(d) && d.0 is Lan,
    ensures
        v4_of(decoded(code)->Ok_0.1) matches Some(a) && a.0.len() == 4 && a.1 != 0,
{
    let payload = split_of(code)->Ok_0.1;
    let b = b32_data(payload, 6)->Ok_0;
    data_has_its_length(payload, 6);
    v4_text_reads_back(b.take(4), port_in(b));
}

proof fn bluetooth_code_is_a_dial_string(code: Seq<char>)
    requires
        decoded(code) matches Ok(d) && d.0 is Bluetooth,
    ensures
        dial_of(decoded(code)->Ok_0.1) matches Ok(a) && 1 <= a.1 <= 30,
{
    let payload = split_of(code)->Ok_0.1;
    let b = b32_data(payload, 7)->Ok_0;
    data_has_its_length(payload, 7);
    lemma2_to64();
    lemma_pow2_adds(16, 32);
    assert(pow2(48) == 0x1_0000_0000_0000) by {
        assert(0x1_0000 * 0x1_0000_0000 == 0x1_0000_0000_0000int) by (nonlinear_arith);
    }
    number_bound(byte_digits(b.take(6)), 8);
    assert(addr_in(b) < 0x1_0000_0000_0000);
    dial_text_reads_back(addr_in(b) as u64, b[6] as u32);
}

/// Letters that look like a digit are read as that digit, and no code is
/// written with one of them; a small letter is read as its capital.
pub proof fn lookalikes_are_read_as_digits(before: Seq<char>, after: Seq<char>)
    requires
        cleaned(before).len() > 0,
    ensures
        decoded(before + seq!['O'] + after) == decoded(before + seq!['0'] + after),
        decoded(before + seq!['o'] + after) == decoded(before + seq!['0'] + after),
        decoded(before + seq!['I'] + after) == decoded(before + seq!['1'] + after),
        decoded(before + seq!['i'] + after) == decoded(before + seq!['1'] + after),
        decoded(before + seq!['L'] + after) == decoded(before + seq!['1'] + after),
        decoded(before + seq!['l'] + after) == decoded(before + seq!['1'] + after),
        forall|v: nat|
            v < 32 ==> #[trigger] symbol(v) != 'O' && symbol(v) != 'I' && symbol(v) != 'L' && symbol(
                v,
            ) != 'U' && symbol_value(symbol(v)) == Some(v) && upper(symbol(v)) == symbol(v),
{
    assert(folded('O') == '0' && folded('o') == '0' && folded('0') == '0');
    assert(folded('I') == '1' && folded('i') == '1' && folded('1') == '1');
    assert(folded('L') == '1' && folded('l') == '1');
    lookalikes_are_folded(before, 'O', '0', after);
    lookalikes_are_folded(before, 'o', '0', after);
    lookalikes_are_folded(before, 'I', '1', after);
    lookalikes_are_folded(before, 'i', '1', after);
    lookalikes_are_folded(before, 'L', '1', after);
    lookalikes_are_folded(before, 'l', '1', after);
}

/// A code is shown in groups of five, with dashes between them: the `j`th
/// symbol of the `k`th group is where it should be, and where another group
/// follows a dash stands before it.
pub proof fn codes_are_shown_in_groups(s: Seq<char>, k: int, j: int)
    requires
        0 <= k,
        0 <= j < 5,
        5 * k + j < s.len(),
    ensures
        6 * k + j < grouped(s).len(),
        grouped(s)[6 * k + j] == s[5 * k + j],
        5 * k + 5 < s.len() ==> 6 * k + 5 < grouped(s).len() && grouped(s)[6 * k + 5] == '-',
        5 * k + 5 >= s.len() ==> grouped(s).len() == s.len() + k,
    decreases k,
{
    reveal_strlit("-");
    if s.len() > 5 {
        let t = s.skip(5);
        let g = grouped(t);
        assert(grouped(s) == s.take(5) + "-"@ + g);
        if k > 0 {
            codes_are_shown_in_groups(t, k - 1, j);
            assert(grouped(s)[6 * k + j] == g[6 * (k - 1) + j]);
            assert(t[5 * (k - 1) + j] == s[5 * k + j]);
            if 5 * k + 5 < s.len() {
                assert(grouped(s)[6 * k + 5] == g[6 * (k - 1) + 5]);
            }
        }
    }
}

// --- IPv6 -------------------------------------------------------------------------------------

/// Groups with colons between them.
pub open spec fn with_colons(groups: Seq<Seq<char>>) -> Seq<char>
    decreases groups.len(),
{
    if groups.len() == 0 {
        Seq::empty()
    } else if groups.len() == 1 {
        groups[0]
    } else {
        groups[0] + seq![':'] + with_colons(groups.skip(1))
    }
}

/// One to four hexadecimal digits each.
pub open spec fn all_hextets(groups: Seq<Seq<char>>) -> bool {
    forall|i: int|
        0 <= i < groups.len() ==> 1 <= (#[trigger] groups[i]).len() <= 4 && forall|k: int|
            0 <= k < groups[i].len() ==> hex_char(#[trigger] groups[i][k])
}

proof fn groups_are_counted(groups: Seq<Seq<char>>, dotted: bool)
    requires
        groups.len() > 0,
        all_hextets(groups),
    ensures
        groups_of(with_colons(groups), dotted) == Some(groups.len()),
        gap_at(with_colons(groups)) == -1,
        with_colons(groups).len() > 0,
        with_colons(groups)[0] != ':',
        with_colons(groups).last() != ':',
    decreases groups.len(),
{
    let a = groups[0];
    let s = with_colons(groups);
    assert(hex_char(a[0]) && hex_char(a[a.len() - 1]));
    assert(!a.contains(':')) by {
        if a.contains(':') {
            let k = choose|k: int| 0 <= k < a.len() && a[k] == ':';
            assert(hex_char(a[k]));
        }
    }
    assert(hextet(a));
    if groups.len() == 1 {
        first_at_is_first(a, ':');
        no_gap(a);
    } else {
        let t = groups.skip(1);
        assert(all_hextets(t)) by {
            assert forall|i: int| 0 <= i < t.len() implies 1 <= (#[trigger] t[i]).len() <= 4
                && forall|k: int| 0 <= k < t[i].len() ==> hex_char(#[trigger] t[i][k]) by {
                assert(t[i] == groups[i + 1]);
            }
        }
        let rest = with_colons(t);
        groups_are_counted(t, dotted);
        first_at_between(a, ':', rest);
        assert(s.take(a.len() as int) =~= a);
        assert(s.skip(a.len() as int + 1) =~= rest);
        one_colon(a, rest);
    }
}

proof fn no_gap(s: Seq<char>)
    requires
        !s.contains(':'),
    ensures
        gap_at(s) == -1,
    decreases s.len(),
{
    if s.len() >= 2 {
        let t = s.skip(1);
        assert(s[0] != ':');
        assert(!t.contains(':')) by {
            if t.contains(':') {
                let k = choose|k: int| 0 <= k < t.len() && t[k] == ':';
                assert(s[k + 1] == ':');
            }
        }
        no_gap(t);
    }
}

proof fn one_colon(a: Seq<char>, rest: Seq<char>)
    requires
        !a.contains(':'),
        rest.len() > 0,
        rest[0] != ':',
        gap_at(rest) == -1,
    ensures
        gap_at(a + seq![':'] + rest) == -1,
    decreases a.len(),
{
    let s = a + seq![':'] + rest;
    if a.len() == 0 {
        assert(s.skip(1) =~= rest);
        assert(s[0] == ':' && s[1] == rest[0]);
    } else {
        let t = a.skip(1);
        assert(a[0] != ':');
        assert(!t.contains(':')) by {
            if t.contains(':') {
                let k = choose|k: int| 0 <= k < t.len() && t[k] == ':';
                assert(a[k + 1] == ':');
            }
        }
        assert(s.skip(1) =~= t + seq![':'] + rest);
        one_colon(t, rest);
    }
}

proof fn gap_is_found(left: Seq<char>, right: Seq<char>)
    requires
        gap_at(left) == -1,
        left.len() > 0 ==> left.last() != ':',
    ensures
        gap_at(left + seq![':', ':'] + right) == left.len(),
    decreases left.len(),
{
    let s = left + seq![':', ':'] + right;
    if left.len() > 0 {
        let t = left.skip(1);
        assert(s.skip(1) =~= t + seq![':', ':'] + right);
        if left.len() == 1 {
            assert(t =~= Seq::<char>::empty());
            assert(gap_at(t) == -1);
            assert(s[0] != ':');
        } else {
            assert(s[0] == left[0] && s[1] == left[1]);
            assert(gap_at(t) == -1);
            assert(t.last() == left.last());
        }
        gap_is_found(t, right);
    }
}

/// An IPv6 address is eight groups of up to four digits with colons between
/// them, or fewer with one double colon in their place.
pub proof fn an_ipv6_address_has_eight_groups(left: Seq<Seq<char>>, right: Seq<Seq<char>>)
    requires
        all_hextets(left),
        all_hextets(right),
    ensures
        left.len() > 0 ==> (v6_addr(with_colons(left)) <==> left.len() == 8),
        v6_addr(with_colons(left) + seq![':', ':'] + with_colons(right)) <==> left.len()
            + right.len() <= 7,
{
    let (l, r) = (with_colons(left), with_colons(right));
    let s = l + seq![':', ':'] + r;
    if left.len() > 0 {
        groups_are_counted(left, true);
        groups_are_counted(left, false);
    }
    if right.len() > 0 {
        groups_are_counted(right, true);
    }
    gap_is_found(l, r);
    assert(s.take(l.len() as int) =~= l);
    assert(s.skip(l.len() as int + 2) =~= r);
}

/// An IPv6 endpoint is its address in brackets, a colon and a port.
pub proof fn an_ipv6_endpoint_is_in_brackets(addr: Seq<char>, digits: Seq<char>)
    requires
        !addr.contains(']'),
        !addr.contains('%'),
        digits.len() > 0,
        all_digits(digits),
    ensures
        v6_socket(seq!['['] + addr + seq![']', ':'] + digits) <==> v6_addr(addr) && dec_value(digits)
            <= 65535,
        !v6_socket(addr),
{
    let s = seq!['['] + addr + seq![']', ':'] + digits;
    let open = seq!['['] + addr;
    assert(!open.contains(']')) by {
        if open.contains(']') {
            let k = choose|k: int| 0 <= k < open.len() && open[k] == ']';
            assert(addr[k - 1] == ']');
        }
    }
    first_at_between(open, ']', seq![':'] + digits);
    assert(s =~= open + seq![']'] + (seq![':'] + digits));
    assert(s.subrange(1, open.len() as int) =~= addr);
    assert(s.skip(open.len() as int + 2) =~= digits);
    first_at_is_first(addr, '%');
    first_at_is_first(addr, ']');
    assert(first_at(addr, '%') < 0) by {
        if first_at(addr, '%') >= 0 {
            assert(addr[first_at(addr, '%')] == '%');
        }
    }
    assert(first_at(addr, ']') < 0) by {
        if first_at(addr, ']') >= 0 {
            assert(addr[first_at(addr, ']')] == ']');
        }
    }
}

} // verus!
