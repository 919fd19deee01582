//! Room codes and the addresses inside them.

use chat_core::error::Error;
use chat_core::roomcode::{b32_decode, b32_encode, clean, decode, encode, normalize_code};
use chat_core::transport::{bluetooth, lan, TransportKind};

#[test]
fn lan_roundtrip() {
    let code = encode(TransportKind::Lan, "192.168.1.24:47021").unwrap();
    let (kind, dial) = decode(&code).unwrap();
    assert_eq!(kind, TransportKind::Lan);
    assert_eq!(dial, "192.168.1.24:47021");
}

#[test]
fn bluetooth_roundtrip() {
    let code = encode(TransportKind::Bluetooth, "A4B1C2D3E4F5:25").unwrap();
    let (kind, dial) = decode(&code).unwrap();
    assert_eq!(kind, TransportKind::Bluetooth);
    assert_eq!(dial, "A4B1C2D3E4F5:25");
}

#[test]
fn formatting_is_ignored() {
    let code = encode(TransportKind::Lan, "10.0.0.7:5000").unwrap();
    let messy = format!("  {}  ", code.to_lowercase().replace('-', " "));
    assert_eq!(decode(&messy).unwrap().1, "10.0.0.7:5000");
}

#[test]
fn bad_codes_are_rejected() {
    assert!(decode("").is_err());
    assert!(decode("Z-ABCDE").is_err());
    assert!(decode("L-AB").is_err());
}

fn problem<T>(r: Result<T, Error>) -> String {
    match r {
        Err(Error::RoomCode(m)) => m,
        _ => "no room code error".to_string(),
    }
}

#[test]
fn a_code_is_spelled_in_groups_of_five() {
    assert_eq!(encode(TransportKind::Lan, "0.0.0.0:1").unwrap(), "L-00000-00004");
    assert_eq!(encode(TransportKind::Lan, "255.255.255.255:65535").unwrap(), "L-ZZZZZ-ZZZZW");
    assert_eq!(
        encode(TransportKind::Bluetooth, "000000000000:1").unwrap(),
        "B-00000-00000-0G"
    );
    assert_eq!(
        encode(TransportKind::Bluetooth, "FF:FF:FF:FF:FF:FF:30").unwrap(),
        "B-ZZZZZ-ZZZZW-F0"
    );
}

#[test]
fn base32_is_read_back() {
    assert_eq!(b32_encode(&[]), "");
    assert_eq!(b32_encode(&[0xff]), "ZW");
    assert_eq!(b32_encode(b"hello"), "D1JPRV3F");
    for len in 0..40usize {
        let data: Vec<u8> = (0..len).map(|i| (i * 37 + 11) as u8).collect();
        assert_eq!(b32_decode(&b32_encode(&data), len).unwrap(), data);
    }
    assert_eq!(problem(b32_decode("00", 2)), "room code is too short");
    assert_eq!(problem(b32_decode("0U", 1)), "'U' is not a valid character in a room code");
    // Longer than it need be: the rest is dropped.
    assert_eq!(b32_decode("0000", 1).unwrap(), vec![0]);
}

#[test]
fn lookalikes_and_case_are_forgiven() {
    let code = encode(TransportKind::Lan, "16.8.0.1:4128").unwrap();
    let like = code.replace('0', "o").replacen('1', "i", 1).replace('1', "l");
    assert_eq!(decode(&like.to_lowercase()).unwrap().1, "16.8.0.1:4128");
    assert_eq!(decode(&format!("l{}", &code[1..])).unwrap().1, "16.8.0.1:4128");
    assert_eq!(clean(" l-ab c_12"), "LABC12");
    assert_eq!(normalize_code(" l-oi L_12"), "L01112");
    assert_eq!(normalize_code("-"), "");
}

#[test]
fn each_bad_code_has_its_reason() {
    assert_eq!(problem(decode(" - ")), "the room code is empty");
    assert_eq!(
        problem(decode("q-1")),
        "'Q' is not a known room-code prefix (expected L for LAN or B for Bluetooth)"
    );
    assert_eq!(problem(decode("L-00000-0000")), "room code is too short");
    assert_eq!(
        problem(decode("L-0000U-00000")),
        "'U' is not a valid character in a room code"
    );
    assert_eq!(problem(decode("L-00000-00000")), "room code contains an invalid port");
    assert_eq!(
        problem(decode("B-00000-00000-00")),
        "room code contains an invalid RFCOMM channel"
    );
    assert_eq!(
        problem(decode("B-00000-00000-ZZ")),
        "room code contains an invalid RFCOMM channel"
    );
}

#[test]
fn each_address_that_cannot_be_shared_has_its_reason() {
    let lan = |d: &str| problem(encode(TransportKind::Lan, d));
    let bt = |d: &str| problem(encode(TransportKind::Bluetooth, d));
    for bad in ["", "1.2.3.4", "1.2.3:5", "1.2.3.256:5", "01.2.3.4:5", "1.2.3.4:65536", "a:1"] {
        assert_eq!(lan(bad), format!("'{bad}' is not a valid address:port"));
    }
    assert_eq!(
        lan("[::1]:80"),
        "LAN mode needs an IPv4 address; this machine reported only IPv6"
    );
    assert_eq!(bt("A4B1C2D3E4F5"), "'A4B1C2D3E4F5' is not ADDRESS:CHANNEL");
    assert_eq!(bt("A4:1"), "'A4' is not a 12 hex digit Bluetooth address");
    assert_eq!(bt("A4B1C2D3E4F5:x"), "'x' is not a valid RFCOMM channel");
    assert_eq!(
        bt("A4B1C2D3E4F5:31"),
        "RFCOMM channel 31 is outside the encodable range 1-30"
    );
    assert_eq!(bt("A4B1C2D3E4F5:0"), "RFCOMM channel 0 is outside the encodable range 1-30");
}

/// What std makes of an address.
fn by_std(s: &str) -> (bool, bool) {
    match s.parse::<core::net::SocketAddr>() {
        Ok(core::net::SocketAddr::V4(_)) => (true, false),
        Ok(core::net::SocketAddr::V6(_)) => (false, true),
        Err(_) => (false, false),
    }
}

#[test]
fn addresses_are_read_as_std_reads_them() {
    let v4 = [
        "1.2.3.4:5", "0.0.0.0:0", "255.255.255.255:65535", "1.2.3.4:00080", "1.2.3.4:000000080",
        "1.2.3.4:", "1.2.3.4", ":80", "1.2.3.4:80 ", " 1.2.3.4:80", "1.2.3.4:+80", "1.02.3.4:80",
        "1.2.3.4.5:80", "1..3.4:80", "1.2.3.0004:80", "1.2.3.4:65536", "1.2.3.4:99999999999",
        "0.00.0.0:1", "1.2.3.4:8:9", "256.1.1.1:1", "1.2.3.4:-1", "1.2.3.4:٣", "0x1.2.3.4:1",
    ];
    let v6 = [
        "[::]:80", "[::1]:80", "::1:80", "[1:2:3:4:5:6:7:8]:9", "[1:2:3:4:5:6:7]:9",
        "[1:2:3:4:5:6:7:8:9]:9", "[1::8]:9", "[1::2::3]:9", "[::ffff:1.2.3.4]:9",
        "[1:2:3:4:5:6:1.2.3.4]:9", "[1:2:3:4:5:6:7:1.2.3.4]:9", "[::1.2.3]:9", "[::1%3]:9",
        "[::1%]:9", "[::1%x]:9", "[::1%4294967295]:9", "[::1%4294967296]:9", "[12345::]:9",
        "[fFfF::0001]:00009", "[::1]", "[::1]:", "[::1]:65536", "[:1]:9", "[1:]:9", "[]:9",
        "[1:2:3:4:5:6:7::]:9", "[::2:3:4:5:6:7:8]:9", "[1::2:3:4:5:6:7:8]:9", "[:::]:9",
        "[::1.2.3.4:5]:9", "[1.2.3.4::]:9", "[g::]:9", "[::00001]:9", "[1:2:3:4::5:6:7:8]:9",
        "[::1 ]:9", "[ ::1]:9", "[::1]:9 ", "[::256.1.1.1]:9", "[::01.1.1.1]:9",
    ];
    for s in v4.iter().chain(v6.iter()) {
        let v: Vec<char> = s.chars().collect();
        let (is4, is6) = by_std(s);
        assert_eq!(lan::parse_v4(&v).is_some(), is4, "{s}");
        assert_eq!(lan::is_v6_socket(&v), is6, "{s}");
        assert_eq!(lan::check_address(s).is_ok(), is4 || is6, "{s}");
    }
}

#[test]
fn the_first_usable_address_is_ours() {
    let found = vec![None, Some(vec![0, 0, 0, 0]), Some(vec![10, 0, 0, 7]), Some(vec![1, 2, 3, 4])];
    assert_eq!(lan::local_ipv4(&found), "10.0.0.7");
    assert_eq!(lan::local_ipv4(&vec![None, None, None]), "127.0.0.1");
    assert_eq!(lan::listen_address("10.0.0.7", 5000), "10.0.0.7:5000");
    assert_eq!(lan::format_v4(&vec![1, 2, 3, 4], 80), "1.2.3.4:80");
}

#[test]
fn a_host_that_cannot_be_reached_is_named() {
    assert_eq!(
        problem(lan::check_address("nowhere")),
        "'nowhere' is not a valid IPv4 address:port"
    );
    assert_eq!(
        lan::unreachable_host("10.0.0.7:5", "timed out").message(),
        "could not reach 10.0.0.7:5 over the local network (timed out) - check that both machines \
         are on the same network and that the host's firewall allows chat.exe"
    );
}

#[test]
fn bluetooth_addresses_are_read_in_any_spelling() {
    for s in ["A4B1C2D3E4F5", "A4:B1:C2:D3:E4:F5", "a4-b1-c2-d3-e4-f5", " a4 b1c2d3e4f5"] {
        assert_eq!(bluetooth::parse_addr(s).unwrap(), 0xA4B1_C2D3_E4F5);
    }
    assert_eq!(bluetooth::format_addr(0xA4B1_C2D3_E4F5), "A4B1C2D3E4F5");
    assert_eq!(bluetooth::format_addr(0xFFFF_0000_0000_0001), "000000000001");
    assert_eq!(bluetooth::parse_dial("A4:B1:C2:D3:E4:F5:7").unwrap(), (0xA4B1_C2D3_E4F5, 7));
    assert_eq!(bluetooth::parse_dial("A4B1C2D3E4F5:+7").unwrap().1, 7);
    assert_eq!(bluetooth::parse_dial("A4B1C2D3E4F5:4294967295").unwrap().1, u32::MAX);
    assert!(bluetooth::parse_dial("A4B1C2D3E4F5:4294967296").is_err());
    assert_eq!(bluetooth::listen_address(0xA4B1_C2D3_E4F5, 25), "A4B1C2D3E4F5:25");
}

#[test]
fn the_bluetooth_stack_is_asked_for_our_channel_first() {
    assert_eq!(bluetooth::bind_channel(0), Some(25));
    assert_eq!(bluetooth::bind_channel(1), Some(u32::MAX));
    assert_eq!(bluetooth::bind_channel(2), None);
    assert_eq!(bluetooth::channel_in_use(25, Some(7)), Some(7));
    assert_eq!(bluetooth::channel_in_use(u32::MAX, Some(7)), Some(7));
    for untold in [Some(0), Some(u32::MAX), None] {
        assert_eq!(bluetooth::channel_in_use(25, untold), Some(25));
        // Another channel was bound, and nobody knows which.
        assert_eq!(bluetooth::channel_in_use(u32::MAX, untold), None);
    }
    assert_eq!(
        bluetooth::unknown_channel().message(),
        "the Bluetooth stack does not tell which channel it assigned"
    );
    assert_eq!(bluetooth::timeout_option(None), 0);
    assert_eq!(bluetooth::timeout_option(Some(20_000)), 20_000);
    assert_eq!(bluetooth::timeout_option(Some(u64::MAX)), u32::MAX);
}

#[test]
fn bluetooth_troubles_are_explained() {
    assert_eq!(
        bluetooth::unavailable().message(),
        "Bluetooth mode is only available in the Windows build of this application"
    );
    assert_eq!(
        bluetooth::no_radio().message(),
        "no Bluetooth radio found on this machine (is Bluetooth switched on?)"
    );
    assert_eq!(
        bluetooth::unreadable_radio(87).message(),
        "could not read the local Bluetooth radio information (Windows error 87)"
    );
    assert_eq!(
        bluetooth::no_listening_socket("x").message(),
        "could not create a Bluetooth socket (x). The Microsoft Bluetooth stack is required."
    );
    assert_eq!(
        bluetooth::no_dialling_socket("x").message(),
        "could not create a Bluetooth socket (x)"
    );
    assert_eq!(
        bluetooth::unreachable_device(0xA4B1_C2D3_E4F5, 25, "x").message(),
        "could not reach Bluetooth device A4B1C2D3E4F5 on channel 25 (x). Make sure the two \
         devices are paired in Windows Settings and that the host is waiting for a joiner."
    );
}

#[test]
fn transports_have_names_and_tags() {
    for (kind, name, tag) in
        [(TransportKind::Lan, "LAN", 'L'), (TransportKind::Bluetooth, "Bluetooth", 'B')]
    {
        assert_eq!(kind.as_str(), name);
        assert_eq!(kind.tag(), tag);
        assert_eq!(TransportKind::from_tag(tag.to_ascii_lowercase()), Some(kind));
        assert_eq!(TransportKind::parse(name), Some(kind));
    }
    assert_eq!(TransportKind::parse(" TCP "), Some(TransportKind::Lan));
    assert_eq!(TransportKind::parse("RfComm"), Some(TransportKind::Bluetooth));
    assert_eq!(TransportKind::parse("wifi"), None);
    assert_eq!(TransportKind::from_tag('X'), None);
}
