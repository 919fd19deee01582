//! What the library promises of the texts that people read and type: what is
//! good stays as it is, what is not is cut in one known way.

use vstd::prelude::*;
use vstd::arithmetic::div_mod::*;
use vstd::arithmetic::power2::*;

use crate::crypto::fingerprint_text;
use crate::error::ErrorView;
use crate::history::occurs;
use crate::laws::transfers::a_part_occurs;
use crate::names::{
    base_name, extra_bits, file_char, file_names_stay_in_their_folder, first, in_units, measured,
    rounded, safe_name, sane_name, separator, size_text,
};
use crate::text::{
    all_kept, alnum_char, control_char, dec, hex_char, hex_upper, hex_value, json_len, json_width,
    lower, lower_all, strip_back, strip_front, trimmed, undotted, upper, white_char,
};
use crate::transport::lan::{ip_text, local_text};
use crate::transport::{kind_named, kind_text, TransportKind};

verus! {

// --- space --------------------------------------------------------------------------

proof fn front_is_stripped(a: Seq<char>, s: Seq<char>, out: spec_fn(char) -> bool)
    requires
        forall|i: int| 0 <= i < a.len() ==> out(#[trigger] a[i]),
        s.len() > 0 ==> !out(s[0]),
    ensures
        strip_front(a + s, out) == s,
    decreases a.len(),
{
    if a.len() == 0 {
        assert(a + s =~= s);
    } else {
        assert(out(a[0]));
        assert((a + s).skip(1) =~= a.skip(1) + s);
        front_is_stripped(a.skip(1), s, out);
    }
}

proof fn back_is_stripped(s: Seq<char>, b: Seq<char>, out: spec_fn(char) -> bool)
    requires
        forall|i: int| 0 <= i < b.len() ==> out(#[trigger] b[i]),
        s.len() > 0 ==> !out(s.last()),
    ensures
        strip_back(s + b, out) == s,
    decreases b.len(),
{
    if b.len() == 0 {
        assert(s + b =~= s);
    } else {
        assert(out(b[b.len() - 1]));
        assert((s + b).drop_last() =~= s + b.drop_last());
        back_is_stripped(s, b.drop_last(), out);
    }
}

proof fn both_ends_are_stripped(
    a: Seq<char>,
    s: Seq<char>,
    b: Seq<char>,
    out: spec_fn(char) -> bool,
)
    requires
        forall|i: int| 0 <= i < a.len() ==> out(#[trigger] a[i]),
        forall|i: int| 0 <= i < b.len() ==> out(#[trigger] b[i]),
        s.len() > 0 ==> !out(s[0]) && !out(s.last()),
    ensures
        strip_back(strip_front(a + s + b, out), out) == s,
{
    if s.len() == 0 {
        let none = Seq::<char>::empty();
        let all = a + b;
        assert(a + s + b =~= all + none);
        assert forall|i: int| 0 <= i < all.len() implies out(#[trigger] all[i]) by {
            if i < a.len() {
                assert(all[i] == a[i]);
            } else {
                assert(all[i] == b[i - a.len()]);
            }
        }
        front_is_stripped(all, none, out);
    } else {
        assert(a + s + b =~= a + (s + b));
        front_is_stripped(a, s + b, out);
        back_is_stripped(s, b, out);
    }
}

/// White space around a text is cut, all of it, and nothing else is.
pub proof fn space_around_is_cut(a: Seq<char>, s: Seq<char>, b: Seq<char>)
    requires
        forall|i: int| 0 <= i < a.len() ==> white_char(#[trigger] a[i]),
        forall|i: int| 0 <= i < b.len() ==> white_char(#[trigger] b[i]),
        s.len() > 0 ==> !white_char(s[0]) && !white_char(s.last()),
    ensures
        trimmed(a + s + b) == s,
{
    let out = |c: char| white_char(c);
    both_ends_are_stripped(a, s, b, out);
}

proof fn dots_around_are_cut(a: Seq<char>, s: Seq<char>, b: Seq<char>)
    requires
        forall|i: int| 0 <= i < a.len() ==> #[trigger] a[i] == '.',
        forall|i: int| 0 <= i < b.len() ==> #[trigger] b[i] == '.',
        s.len() > 0 ==> s[0] != '.' && s.last() != '.',
    ensures
        undotted(a + s + b) == s,
{
    let out = |c: char| c == '.';
    both_ends_are_stripped(a, s, b, out);
}

proof fn nothing_to_cut(s: Seq<char>)
    requires
        s.len() > 0 ==> !white_char(s[0]) && !white_char(s.last()),
    ensures
        trimmed(s) == s,
{
    let none = Seq::<char>::empty();
    assert(none + s + none =~= s);
    space_around_is_cut(none, s, none);
}

/// White space is what Unicode calls so, and control characters are the two
/// blocks of them.
pub proof fn space_is_what_unicode_says(c: char)
    ensures
        white_char(c) <==> seq![
            9u32,
            10,
            11,
            12,
            13,
            32,
            133,
            160,
            5760,
            8192,
            8193,
            8194,
            8195,
            8196,
            8197,
            8198,
            8199,
            8200,
            8201,
            8202,
            8232,
            8233,
            8239,
            8287,
            12288,
        ].contains(c as u32),
        control_char(c) <==> (c as u32) < 32 || 127 <= (c as u32) < 160,
{
    let all = seq![
        9u32,
        10,
        11,
        12,
        13,
        32,
        133,
        160,
        5760,
        8192,
        8193,
        8194,
        8195,
        8196,
        8197,
        8198,
        8199,
        8200,
        8201,
        8202,
        8232,
        8233,
        8239,
        8287,
        12288,
    ];
    let n = c as u32;
    if white_char(c) {
        let i = if n <= 13 {
            n - 9
        } else if n == 32 {
            5
        } else if n == 133 {
            6
        } else if n == 160 {
            7
        } else if n == 5760 {
            8
        } else if n <= 8202 {
            n - 8192 + 9
        } else if n == 8232 {
            20
        } else if n == 8233 {
            21
        } else if n == 8239 {
            22
        } else if n == 8287 {
            23
        } else {
            24
        };
        assert(all[i] == n);
    }
}

/// Capitals and small letters are told apart for the twenty-six letters only;
/// every other character is its own capital and its own small letter.
pub proof fn letters_have_two_cases(c: char)
    ensures
        'a' <= c <= 'z' ==> upper(c) as u32 + 32 == c as u32 && lower(c) == c,
        'A' <= c <= 'Z' ==> lower(c) as u32 == c as u32 + 32 && upper(c) == c,
        !('a' <= c <= 'z') && !('A' <= c <= 'Z') ==> upper(c) == c && lower(c) == c,
        alnum_char(c) <==> '0' <= c <= '9' || 'a' <= c <= 'z' || 'A' <= c <= 'Z',
        hex_char(c) <==> '0' <= c <= '9' || 'a' <= c <= 'f' || 'A' <= c <= 'F',
{
}

// --- display names ------------------------------------------------------------------------

/// A presentable display name is shown as it is; of one that is too long its
/// first 32 characters are shown.
pub proof fn presentable_names_stay(name: Seq<char>)
    requires
        name.len() > 0,
        forall|i: int| 0 <= i < name.len() ==> !control_char(#[trigger] name[i]),
        !white_char(name[0]),
        name.len() <= 32 ==> !white_char(name.last()),
        name.len() > 32 ==> !white_char(name[31]),
    ensures
        name.len() <= 32 ==> sane_name(name) == name,
        name.len() > 32 ==> sane_name(name) == name.take(32),
{
    let keep = |c: char| !control_char(c);
    all_kept(name, keep);
    nothing_to_cut(first(name, 32));
}

/// What is too long is cut first, whatever it begins with: behind the first 32
/// characters that can be shown nothing counts, and behind the first 120 of a
/// file's name neither.
pub proof fn long_names_are_cut_first(name: Seq<char>)
    requires
        forall|i: int| 0 <= i < name.len() ==> !control_char(#[trigger] name[i]),
    ensures
        name.len() > 32 ==> sane_name(name) == sane_name(name.take(32)),
        name.len() > 120 && (forall|i: int|
            0 <= i < name.len() ==> !separator(#[trigger] name[i]) && file_char(name[i]))
            ==> safe_name(name) == safe_name(name.take(120)),
{
    let keep = |c: char| !control_char(c);
    all_kept(name, keep);
    if name.len() > 32 {
        let t = name.take(32);
        assert forall|i: int| 0 <= i < t.len() implies keep(#[trigger] t[i]) by {
            assert(t[i] == name[i]);
        }
        all_kept(t, keep);
    }
    if name.len() > 120 && (forall|i: int|
        0 <= i < name.len() ==> !separator(#[trigger] name[i]) && file_char(name[i])) {
        let good = |c: char| file_char(c);
        let t = name.take(120);
        assert forall|i: int| 0 <= i < t.len() implies !separator(#[trigger] t[i]) && good(t[i]) by {
            assert(t[i] == name[i]);
        }
        base_of_plain(name);
        base_of_plain(t);
        all_kept(name, good);
        all_kept(t, good);
    }
}

/// Control characters are dropped from a display name, wherever they stand, as
/// if they had not been typed.
pub proof fn control_characters_are_dropped(before: Seq<char>, c: char, after: Seq<char>)
    requires
        control_char(c),
    ensures
        sane_name(before + seq![c] + after) == sane_name(before + after),
{
    let keep = |c: char| !control_char(c);
    reveal(Seq::filter);
    let one = seq![c];
    assert(one.drop_last() =~= Seq::<char>::empty());
    assert(one.last() == c && !keep(c));
    assert(one.filter(keep) == one.drop_last().filter(keep));
    assert(one.filter(keep) =~= Seq::<char>::empty());
    Seq::filter_distributes_over_add(before, seq![c], keep);
    Seq::filter_distributes_over_add(before + seq![c], after, keep);
    Seq::filter_distributes_over_add(before, after, keep);
    assert((before + seq![c] + after).filter(keep) =~= (before + after).filter(keep));
}

/// Someone who gives no name, or one of which nothing can be seen, is
/// "Anonymous".
pub proof fn the_nameless_are_anonymous(name: Seq<char>)
    requires
        forall|i: int|
            0 <= i < name.len() ==> white_char(#[trigger] name[i]) || control_char(name[i]),
    ensures
        sane_name(name) == "Anonymous"@,
{
    let keep = |c: char| !control_char(c);
    let f = name.filter(keep);
    broadcast use vstd::seq_lib::group_filter_ensures;

    let g = first(f, 32);
    let none = Seq::<char>::empty();
    assert forall|i: int| 0 <= i < g.len() implies white_char(#[trigger] g[i]) by {
        assert(g[i] == f[i]);
        assert(f.contains(f[i]));
        crate::table::filter_contains(name, keep, f[i]);
        assert(keep(f[i]));
        let j = choose|j: int| 0 <= j < name.len() && name[j] == f[i];
        assert(white_char(name[j]) || control_char(name[j]));
    }
    space_around_is_cut(g, none, none);
    assert(g + none + none =~= g);
}

// --- file names --------------------------------------------------------------------------

proof fn base_of_plain(s: Seq<char>)
    requires
        forall|i: int| 0 <= i < s.len() ==> !separator(#[trigger] s[i]),
    ensures
        base_name(s) == s,
    decreases s.len(),
{
    if s.len() > 0 {
        let t = s.drop_last();
        assert(!separator(s[s.len() - 1]));
        assert forall|i: int| 0 <= i < t.len() implies !separator(#[trigger] t[i]) by {
            assert(t[i] == s[i]);
        }
        base_of_plain(t);
        assert(t.push(s.last()) =~= s);
    } else {
        assert(s =~= Seq::<char>::empty());
    }
}

proof fn base_is_behind(dir: Seq<char>, sep: char, rest: Seq<char>)
    requires
        separator(sep),
    ensures
        base_name(dir + seq![sep] + rest) == base_name(rest),
    decreases rest.len(),
{
    let s = dir + seq![sep] + rest;
    if rest.len() == 0 {
        assert(s.last() == sep);
    } else {
        assert(s.last() == rest.last());
        assert(s.drop_last() =~= dir + seq![sep] + rest.drop_last());
        base_is_behind(dir, sep, rest.drop_last());
    }
}

/// Whatever directories a peer put before a file's name, only the name counts.
pub proof fn directories_are_dropped(dir: Seq<char>, sep: char, rest: Seq<char>)
    requires
        sep == '/' || sep == '\\',
    ensures
        safe_name(dir + seq![sep] + rest) == safe_name(rest),
{
    base_is_behind(dir, sep, rest);
}

/// A good file name stays as it is; of one that is too long its first 120
/// characters stay.
pub proof fn good_file_names_stay(name: Seq<char>)
    requires
        name.len() > 0,
        forall|i: int|
            0 <= i < name.len() ==> !control_char(#[trigger] name[i]) && name[i] != '/' && name[i]
                != '\\' && name[i] != ':' && name[i] != '*' && name[i] != '?' && name[i] != '"'
                && name[i] != '<' && name[i] != '>' && name[i] != '|',
        !white_char(name[0]) && name[0] != '.',
        name.len() <= 120 ==> !white_char(name.last()) && name.last() != '.',
        name.len() > 120 ==> !white_char(name[119]) && name[119] != '.',
    ensures
        name.len() <= 120 ==> safe_name(name) == name,
        name.len() > 120 ==> safe_name(name) == name.take(120),
{
    let keep = |c: char| file_char(c);
    assert forall|i: int| 0 <= i < name.len() implies !separator(#[trigger] name[i]) by {
        assert(!control_char(name[i]));
    }
    assert forall|i: int| 0 <= i < name.len() implies keep(#[trigger] name[i]) by {
        assert(!control_char(name[i]));
    }
    base_of_plain(name);
    all_kept(name, keep);
    let f = first(name, 120);
    let none = Seq::<char>::empty();
    nothing_to_cut(f);
    dots_around_are_cut(none, f, none);
    assert(none + f + none =~= f);
}

/// No file name holds a character that a file system gives a meaning to, and
/// none is hidden.
pub proof fn file_names_are_harmless(name: Seq<char>, i: int)
    requires
        0 <= i < safe_name(name).len(),
    ensures
        safe_name(name)[i] as u32 >= 32,
        safe_name(name)[i] != '/' && safe_name(name)[i] != '\\' && safe_name(name)[i] != ':',
        safe_name(name)[i] != '*' && safe_name(name)[i] != '?' && safe_name(name)[i] != '"',
        safe_name(name)[i] != '<' && safe_name(name)[i] != '>' && safe_name(name)[i] != '|',
        safe_name(name)[0] != '.',
{
    file_names_stay_in_their_folder(name);
}

/// A character that cannot stand in a file name is dropped, as if it had not
/// been there.
pub proof fn unusable_characters_are_dropped(before: Seq<char>, c: char, after: Seq<char>)
    requires
        control_char(c) || c == ':' || c == '*' || c == '?' || c == '"' || c == '<' || c == '>' || c
            == '|',
    ensures
        safe_name(before + seq![c] + after) == safe_name(before + after),
{
    base_without(before, c, after);
}

proof fn base_without(before: Seq<char>, c: char, after: Seq<char>)
    requires
        !separator(c),
        !file_char(c),
    ensures
        base_name(before + seq![c] + after).filter(|c: char| file_char(c)) == base_name(
            before + after,
        ).filter(|c: char| file_char(c)),
    decreases after.len(),
{
    let keep = |c: char| file_char(c);
    let s = before + seq![c] + after;
    let t = before + after;
    reveal(Seq::filter);
    if after.len() == 0 {
        assert(t =~= before);
        assert(s.drop_last() =~= before);
        let b = base_name(before);
        assert(b.push(c).drop_last() =~= b);
        assert(b.push(c).filter(keep) == b.filter(keep));
    } else {
        let d = after.drop_last();
        let last = after.last();
        base_without(before, c, d);
        assert(s.last() == last && t.last() == last);
        assert(s.drop_last() =~= before + seq![c] + d);
        assert(t.drop_last() =~= before + d);
        if !separator(last) {
            let (x, y) = (base_name(before + seq![c] + d), base_name(before + d));
            assert(x.push(last).drop_last() =~= x);
            assert(y.push(last).drop_last() =~= y);
        }
    }
}

/// A file whose name is nothing but full stops or space is "received.bin".
pub proof fn the_unnamed_are_received(name: Seq<char>)
    requires
        (forall|i: int| 0 <= i < name.len() ==> #[trigger] name[i] == '.') || (forall|i: int|
            0 <= i < name.len() ==> #[trigger] name[i] == ' '),
    ensures
        safe_name(name) == "received.bin"@,
{
    let keep = |c: char| file_char(c);
    let none = Seq::<char>::empty();
    assert forall|i: int| 0 <= i < name.len() implies !separator(#[trigger] name[i]) && keep(
        name[i],
    ) by {
        assert(name[i] == '.' || name[i] == ' ');
    }
    base_of_plain(name);
    all_kept(name, keep);
    let f = first(name, 120);
    assert(f + none + none =~= f);
    if name.len() > 0 && name[0] == '.' {
        assert forall|i: int| 0 <= i < f.len() implies #[trigger] f[i] == '.' by {
            assert(f[i] == name[i]);
        }
        nothing_to_cut(f);
        dots_around_are_cut(f, none, none);
    } else {
        assert forall|i: int| 0 <= i < f.len() implies white_char(#[trigger] f[i]) by {
            assert(f[i] == name[i]);
        }
        space_around_is_cut(f, none, none);
        dots_around_are_cut(none, none, none);
        assert(none + none + none =~= none);
    }
}

// --- sizes ---------------------------------------------------------------------------------

/// Whether a text gives a size in a unit, to the nearest tenth of it.
pub open spec fn reads_as(text: Seq<char>, bytes: int, scale: int, unit: Seq<char>) -> bool {
    exists|whole: nat, tenth: nat|
        tenth < 10 && text == #[trigger] (dec(whole) + "."@ + dec(tenth) + " "@ + unit) && -scale
            <= 2 * ((10 * whole + tenth) * scale - 10 * bytes) <= scale
}

proof fn units_are_close(v: nat, scale: nat, unit: Seq<char>)
    requires
        scale > 0,
    ensures
        reads_as(in_units(v, scale, unit), v as int, scale as int, unit),
{
    let n = 10 * v;
    let t = rounded(n, scale);
    let (q, r) = (n as int / scale as int, n as int % scale as int);
    lemma_fundamental_div_mod(n as int, scale as int);
    lemma_mod_bound(n as int, scale as int);
    assert((q + 1) * scale == q * scale + scale) by (nonlinear_arith);
    assert(scale as int * q == q * scale as int) by (nonlinear_arith);
    assert(t == q || t == q + 1);
    let (whole, tenth) = (t / 10, t % 10);
    assert(10 * whole + tenth == t);
    assert(-(scale as int) <= 2 * (t * scale as int - n) <= scale as int);
    assert(in_units(v, scale, unit) == dec(whole) + "."@ + dec(tenth) + " "@ + unit);
}

/// A size is given in the largest unit of which there is at least one, to the
/// nearest tenth of that unit.
pub proof fn sizes_are_close(bytes: u64)
    requires
        bytes < 0x20_0000_0000_0000,
    ensures
        bytes < 1024 ==> size_text(bytes) == dec(bytes as nat) + " B"@,
        1024 <= bytes < 1048576 ==> reads_as(size_text(bytes), bytes as int, 1024, "KB"@),
        1048576 <= bytes < 1073741824 ==> reads_as(
            size_text(bytes),
            bytes as int,
            1048576,
            "MB"@,
        ),
        1073741824 <= bytes < 1099511627776 ==> reads_as(
            size_text(bytes),
            bytes as int,
            1073741824,
            "GB"@,
        ),
        bytes >= 1099511627776 ==> reads_as(size_text(bytes), bytes as int, 1099511627776, "TB"@),
{
    lemma2_to64();
    assert(extra_bits(bytes as nat) == 0);
    lemma_fundamental_div_mod(bytes as int, 1);
    assert(measured(bytes as nat) == bytes);
    units_are_close(bytes as nat, 1024, "KB"@);
    units_are_close(bytes as nat, 1048576, "MB"@);
    units_are_close(bytes as nat, 1073741824, "GB"@);
    units_are_close(bytes as nat, 1099511627776, "TB"@);
}

/// Sizes of more than 53 bits are measured with 53: what is given is at most
/// 1024 bytes off, and in terabytes.
pub proof fn vast_sizes_are_close(bytes: u64)
    requires
        bytes >= 0x20_0000_0000_0000,
    ensures
        exists|near: int| #[trigger]
            reads_as(size_text(bytes), near, 1099511627776, "TB"@) && -1024 <= near - bytes <= 1024,
{
    let n = bytes as nat;
    let k = extra_bits(n);
    let d = pow2(k);
    let v = measured(n);
    reveal_with_fuel(extra_bits, 13);
    assert(k <= 11);
    lemma2_to64();
    lemma_pow2_pos(k);
    if k < 11 {
        lemma_pow2_strictly_increases(k, 11);
    }
    let (q, r) = (n as int / d as int, n as int % d as int);
    lemma_fundamental_div_mod(n as int, d as int);
    lemma_mod_bound(n as int, d as int);
    assert((q + 1) * d == q * d + d) by (nonlinear_arith);
    assert(d as int * q == q * d as int) by (nonlinear_arith);
    assert(v == q * d || v == q * d + d);
    assert(-1024 <= v - n <= 1024);
    units_are_close(v, 1099511627776, "TB"@);
    assert(size_text(bytes) == in_units(v, 1099511627776, "TB"@));
    assert(reads_as(size_text(bytes), v as int, 1099511627776, "TB"@));
}

// --- fingerprints, failures, transports -------------------------------------------------------

/// A fingerprint shows the first six bytes of what it stands for, each by its
/// two digits, with colons between them; so two are alike only where those
/// bytes are.
pub proof fn a_fingerprint_shows_six_bytes(d: Seq<u8>, e: Seq<u8>, i: int)
    requires
        d.len() >= 6,
        e.len() >= 6,
        0 <= i < 6,
    ensures
        fingerprint_text(d).len() == 17,
        hex_value(fingerprint_text(d)[3 * i]) * 16 + hex_value(fingerprint_text(d)[3 * i + 1])
            == d[i],
        i < 5 ==> fingerprint_text(d)[3 * i + 2] == ':',
        fingerprint_text(d) == fingerprint_text(e) ==> d[i] == e[i],
{
    assert((3 * i) / 3 == i && (3 * i + 1) / 3 == i);
    assert((3 * i) % 3 == 0 && (3 * i + 1) % 3 == 1 && (3 * i + 2) % 3 == 2);
    let (a, b) = (d[i] / 16, d[i] % 16);
    let (x, y) = (e[i] / 16, e[i] % 16);
    assert(hex_value(hex_upper(a as nat)) == a && hex_value(hex_upper(b as nat)) == b);
    assert(hex_value(hex_upper(x as nat)) == x && hex_value(hex_upper(y as nat)) == y);
}

/// What the user reads of a failure holds the whole of its cause, and the
/// failures of encryption, protocol and code are told apart.
pub proof fn failures_keep_their_cause(m: Seq<char>)
    ensures
        ErrorView::Unsupported(m).message() == m,
        ErrorView::Config(m).message() == m,
        ErrorView::Closed(m).message() == m,
        occurs(m, ErrorView::Crypto(m).message()),
        occurs(m, ErrorView::Protocol(m).message()),
        occurs(m, ErrorView::RoomCode(m).message()),
        ErrorView::Crypto(m).message()[0] == 'e',
        ErrorView::Protocol(m).message()[0] == 'p',
        ErrorView::RoomCode(m).message()[0] == 'r',
        ErrorView::Crypto(m).message().skip(18) == m,
        ErrorView::Protocol(m).message().skip(16) == m,
        ErrorView::RoomCode(m).message().skip(17) == m,
{
    reveal_strlit("encryption error: ");
    reveal_strlit("protocol error: ");
    reveal_strlit("room code error: ");
    let none = Seq::<char>::empty();
    let (a, b, c) = ("encryption error: "@, "protocol error: "@, "room code error: "@);
    assert(a + m =~= a + m + none);
    assert(b + m =~= b + m + none);
    assert(c + m =~= c + m + none);
    a_part_occurs(a, m, none);
    a_part_occurs(b, m, none);
    a_part_occurs(c, m, none);
    assert((a + m).skip(18) =~= m);
    assert((b + m).skip(16) =~= m);
    assert((c + m).skip(17) =~= m);
}

/// The name that a transport is shown with chooses that transport, with any
/// space around it.
pub proof fn a_shown_transport_can_be_chosen(kind: TransportKind, a: Seq<char>, b: Seq<char>)
    requires
        forall|i: int| 0 <= i < a.len() ==> white_char(#[trigger] a[i]),
        forall|i: int| 0 <= i < b.len() ==> white_char(#[trigger] b[i]),
    ensures
        kind_named(a + kind_text(kind) + b) == Some(kind),
{
    reveal_strlit("LAN");
    reveal_strlit("lan");
    reveal_strlit("tcp");
    reveal_strlit("local");
    reveal_strlit("Bluetooth");
    reveal_strlit("bluetooth");
    space_around_is_cut(a, kind_text(kind), b);
    assert(lower_all("LAN"@) =~= "lan"@);
    assert(lower_all("Bluetooth"@) =~= "bluetooth"@);
    assert("bluetooth"@.len() == 9);
}

/// A transport is chosen by any of its three names, in capitals or small
/// letters, and by nothing else.
pub proof fn a_transport_has_three_names(s: Seq<char>)
    ensures
        ({
            let t = lower_all(trimmed(s));
            &&& kind_named(s) == Some(TransportKind::Lan) <==> t == "lan"@ || t == "tcp"@ || t
                == "local"@
            &&& kind_named(s) == Some(TransportKind::Bluetooth) <==> t == "bluetooth"@ || t
                == "bt"@ || t == "rfcomm"@
        }),
{
    reveal_strlit("lan");
    reveal_strlit("tcp");
    reveal_strlit("local");
    reveal_strlit("bluetooth");
    reveal_strlit("bt");
    reveal_strlit("rfcomm");
    assert("lan"@.len() == 3 && "tcp"@.len() == 3 && "local"@.len() == 5);
    assert("bluetooth"@.len() == 9 && "bt"@.len() == 2 && "rfcomm"@.len() == 6);
}

/// The address that others are told is the first one that was found and is not
/// all zero, and the loopback address if there is none.
pub proof fn the_first_usable_address_is_told(found: Seq<Option<Seq<u8>>>, k: int)
    requires
        0 <= k <= found.len(),
        forall|i: int| 0 <= i < k ==> !can_be_told(#[trigger] found[i]),
        k < found.len() ==> can_be_told(found[k]),
    ensures
        k < found.len() ==> local_text(found) == ip_text(found[k]->Some_0),
        k == found.len() ==> local_text(found) == "127.0.0.1"@,
    decreases k,
{
    if k > 0 {
        let t = found.skip(1);
        assert(!can_be_told(found[0]));
        assert forall|i: int| 0 <= i < k - 1 implies !can_be_told(#[trigger] t[i]) by {
            assert(t[i] == found[i + 1]);
        }
        the_first_usable_address_is_told(t, k - 1);
    }
}

/// Four octets were found, and one of them is not zero.
pub open spec fn can_be_told(found: Option<Seq<u8>>) -> bool {
    found matches Some(o) && o.len() == 4 && (o[0] != 0 || o[1] != 0 || o[2] != 0 || o[3] != 0)
}

// --- texts in messages -------------------------------------------------------------------

/// A text takes, inside a message, what its parts take: one to four bytes for a
/// character that is written as it is, two for one that stands behind a
/// backslash, and six for any other control character.
pub proof fn a_text_takes_what_its_parts_take(a: Seq<char>, c: char, b: Seq<char>)
    ensures
        json_len(a + b) == json_len(a) + json_len(b),
        json_len(Seq::empty()) == 0,
        c == '"' || c == '\\' || c == '\n' || c == '\t' || c == '\r' ==> json_len(seq![c]) == 2,
        (c as u32) < 32 ==> json_len(seq![c]) == 2 || json_len(seq![c]) == 6,
        ' ' <= c <= '~' && c != '"' && c != '\\' ==> json_len(seq![c]) == 1,
        (c as u32) >= 128 ==> json_len(seq![c]) == if (c as u32) < 2048 {
            2int
        } else if (c as u32) < 65536 {
            3
        } else {
            4
        },
    decreases b.len(),
{
    let one = seq![c];
    assert(one.drop_last() =~= Seq::<char>::empty());
    assert(json_len(one) == json_len(one.drop_last()) + json_width(c));
    if b.len() == 0 {
        assert(a + b =~= a);
    } else {
        assert((a + b).drop_last() =~= a + b.drop_last());
        a_text_takes_what_its_parts_take(a, c, b.drop_last());
    }
}

} // verus!
