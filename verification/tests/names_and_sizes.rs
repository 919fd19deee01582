//! Names that come from the network, and sizes for people to read.

use chat_core::files::{human_size, safe_file_name};
use chat_core::mesh::sanitize_name;
use chat_core::text::{is_control, is_white};

#[test]
fn file_names_are_sanitised() {
    assert_eq!(safe_file_name("..\\..\\windows\\system32\\evil.dll"), "evil.dll");
    assert_eq!(safe_file_name("/etc/passwd"), "passwd");
    assert_eq!(safe_file_name("   "), "received.bin");
}

#[test]
fn sizes_are_readable() {
    assert_eq!(human_size(512), "512 B");
    assert_eq!(human_size(2048), "2.0 KB");
}

#[test]
fn characters_are_classed_as_std_does() {
    for c in '\0'..=char::MAX {
        assert_eq!(is_white(c), c.is_whitespace(), "{:x}", c as u32);
        assert_eq!(is_control(c), c.is_control(), "{:x}", c as u32);
    }
}

fn by_floats(bytes: u64) -> String {
    let units = ["B", "KB", "MB", "GB", "TB"];
    let mut v = bytes as f64;
    let mut u = 0;
    while v >= 1024.0 && u < units.len() - 1 {
        v /= 1024.0;
        u += 1;
    }
    if u == 0 {
        format!("{bytes} B")
    } else {
        format!("{v:.1} {}", units[u])
    }
}

#[test]
fn sizes_round_as_floats_do() {
    let mut n: u64 = 1;
    for _ in 0..200_000 {
        n = n.wrapping_mul(6364136223846793005).wrapping_add(1442695040888963407);
        for shift in [0, 10, 20, 30, 40, 50, 54] {
            let b = n >> shift;
            assert_eq!(human_size(b), by_floats(b), "{b}");
        }
    }
}

#[test]
fn sizes_at_the_edges() {
    let mut edges: Vec<u64> = vec![0, 1, 1023, u64::MAX, u64::MAX - 1];
    for u in 1..7u32 {
        let unit = 1u64 << (10 * u);
        for k in 0..60u64 {
            for tenth in 0..40u64 {
                let near = (unit as u128 * (k as u128 * 20 + tenth as u128) / 20) as u64;
                edges.push(near.saturating_sub(1));
                edges.push(near);
                edges.push(near.saturating_add(1));
            }
        }
        edges.push(unit - 1);
        edges.push(unit - unit / 2048);
    }
    for b in 52..64u32 {
        let p = 1u64 << b;
        for d in 0..4096u64 {
            edges.push(p.wrapping_add(d));
            edges.push(p.wrapping_sub(d));
        }
    }
    for b in edges {
        assert_eq!(human_size(b), by_floats(b), "{b}");
    }
    assert_eq!(human_size(1024 * 1024), "1.0 MB");
    assert_eq!(human_size(200 * 1024 + 123), "200.1 KB");
}

#[test]
fn display_names_lose_what_cannot_be_printed() {
    assert_eq!(sanitize_name("  Ann\t\n "), "Ann");
    assert_eq!(sanitize_name("\u{7}"), "Anonymous");
    assert_eq!(sanitize_name(" \u{3000} "), "Anonymous");
    assert_eq!(sanitize_name(&"x".repeat(500)), "x".repeat(32));
    for name in ["  Ann\t\n ", "", "x y", " \u{85}z"] {
        assert_eq!(sanitize_name(&sanitize_name(name)), sanitize_name(name));
    }
    // Cut first, trimmed after.
    assert_eq!(sanitize_name(&format!("{}  tail", "y".repeat(30))), "y".repeat(30));
}

#[test]
fn file_names_never_leave_their_folder() {
    for bad in ["..", ".", "../..", "a/..", "C:\\x\\..", "...", "/", "\\", "", "\0", "a:b", "x*?"] {
        let n = safe_file_name(bad);
        assert!(!n.is_empty(), "{bad:?}");
        assert!(!n.contains('/') && !n.contains('\\'), "{bad:?} gave {n:?}");
        assert!(n != "." && n != "..", "{bad:?} gave {n:?}");
    }
}

#[test]
fn file_names_are_cut_and_trimmed() {
    assert_eq!(safe_file_name("a:b*c?.txt"), "abc.txt");
    assert_eq!(safe_file_name(".hidden."), "hidden");
    assert_eq!(safe_file_name(&"n".repeat(300)), "n".repeat(120));
    assert_eq!(safe_file_name("dir/"), "received.bin");
    assert_eq!(safe_file_name(" . x . "), " x ");
}
