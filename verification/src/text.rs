//! Text helpers: the few operations on strings that the rest of the library
//! is written with, each with the sequence of characters it produces.

use vstd::prelude::*;

verus! {

/// `String::push`: appends one character at the end.
pub assume_specification[ String::push ](s: &mut String, c: char)
    ensures
        final(s)@ == old(s)@.push(c),
;

// --- character classes -----------------------------------------------------

/// Unicode general category Cc.
pub open spec fn control_char(c: char) -> bool {
    c as u32 <= 0x1f || 0x7f <= c as u32 <= 0x9f
}

/// Unicode property White_Space.
pub open spec fn white_char(c: char) -> bool {
    let n = c as u32;
    ||| 0x09 <= n <= 0x0d
    ||| n == 0x20
    ||| n == 0x85
    ||| n == 0xa0
    ||| n == 0x1680
    ||| 0x2000 <= n <= 0x200a
    ||| n == 0x2028
    ||| n == 0x2029
    ||| n == 0x202f
    ||| n == 0x205f
    ||| n == 0x3000
}

pub open spec fn digit_char(c: char) -> bool {
    '0' <= c <= '9'
}

pub open spec fn alnum_char(c: char) -> bool {
    digit_char(c) || 'a' <= c <= 'z' || 'A' <= c <= 'Z'
}

pub open spec fn hex_char(c: char) -> bool {
    digit_char(c) || 'a' <= c <= 'f' || 'A' <= c <= 'F'
}

/// ASCII upper case; every other character is left alone.
pub open spec fn upper(c: char) -> char {
    if 'a' <= c <= 'z' {
        (c as u32 - 32) as char
    } else {
        c
    }
}

/// ASCII lower case; every other character is left alone.
pub open spec fn lower(c: char) -> char {
    if 'A' <= c <= 'Z' {
        (c as u32 + 32) as char
    } else {
        c
    }
}

pub open spec fn upper_all(s: Seq<char>) -> Seq<char> {
    Seq::new(s.len(), |i: int| upper(s[i]))
}

pub open spec fn lower_all(s: Seq<char>) -> Seq<char> {
    Seq::new(s.len(), |i: int| lower(s[i]))
}

pub fn is_control(c: char) -> (r: bool)
    ensures
        r == control_char(c),
{
    let n: u32 = c as u32;
    n <= 0x1f || (0x7f <= n && n <= 0x9f)
}

pub fn is_white(c: char) -> (r: bool)
    ensures
        r == white_char(c),
{
    let n: u32 = c as u32;
    (0x09 <= n && n <= 0x0d) || n == 0x20 || n == 0x85 || n == 0xa0 || n == 0x1680 || (0x2000 <= n
        && n <= 0x200a) || n == 0x2028 || n == 0x2029 || n == 0x202f || n == 0x205f || n == 0x3000
}

pub fn is_digit(c: char) -> (r: bool)
    ensures
        r == digit_char(c),
{
    '0' <= c && c <= '9'
}

pub fn is_alnum(c: char) -> (r: bool)
    ensures
        r == alnum_char(c),
{
    is_digit(c) || ('a' <= c && c <= 'z') || ('A' <= c && c <= 'Z')
}

pub fn is_hex(c: char) -> (r: bool)
    ensures
        r == hex_char(c),
{
    is_digit(c) || ('a' <= c && c <= 'f') || ('A' <= c && c <= 'F')
}

pub fn to_upper(c: char) -> (r: char)
    ensures
        r == upper(c),
{
    if 'a' <= c && c <= 'z' {
        ((c as u8) - 32) as char
    } else {
        c
    }
}

pub fn to_lower(c: char) -> (r: char)
    ensures
        r == lower(c),
{
    if 'A' <= c && c <= 'Z' {
        ((c as u8) + 32) as char
    } else {
        c
    }
}

// --- strings and characters ------------------------------------------------

/// The characters of `s`, in order.
pub fn chars_of(s: &str) -> (r: Vec<char>)
    ensures
        r@ == s@,
{
    let mut out: Vec<char> = Vec::new();
    for c in it: s.chars()
        invariant
            out@ == it.seq().take(it.index() as int),
            it.seq() == s@,
    {
        out.push(c);
        assert(out@ =~= it.seq().take(it.index() + 1));
    }
    out
}

/// The string made of these characters.
pub fn string_of(v: &[char]) -> (r: String)
    ensures
        r@ == v@,
{
    let mut out = String::new();
    let mut i: usize = 0;
    while i < v.len()
        invariant
            i <= v@.len(),
            out@ == v@.take(i as int),
        decreases v@.len() - i,
    {
        out.push(v[i]);
        assert(v@.take(i + 1) =~= v@.take(i as int).push(v@[i as int]));
        i += 1;
    }
    assert(v@.take(i as int) =~= v@);
    out
}

/// The characters `from..to` of `v`, as a string.
pub fn slice_text(v: &Vec<char>, from: usize, to: usize) -> (r: String)
    requires
        from <= to <= v@.len(),
    ensures
        r@ == v@.subrange(from as int, to as int),
{
    let mut out = String::new();
    let mut i: usize = from;
    while i < to
        invariant
            from <= i <= to <= v@.len(),
            out@ == v@.subrange(from as int, i as int),
        decreases to - i,
    {
        out.push(v[i]);
        assert(v@.subrange(from as int, i + 1) =~= v@.subrange(from as int, i as int).push(
            v@[i as int],
        ));
        i += 1;
    }
    out
}

/// Whether two strings hold the same characters.
pub fn same_text(a: &str, b: &str) -> (r: bool)
    ensures
        r == (a@ == b@),
{
    let x = chars_of(a);
    let y = chars_of(b);
    if x.len() != y.len() {
        return false;
    }
    let mut i: usize = 0;
    while i < x.len()
        invariant
            i <= x@.len(),
            x@.len() == y@.len(),
            x@ == a@,
            y@ == b@,
            forall|j: int| 0 <= j < i ==> x@[j] == y@[j],
        decreases x@.len() - i,
    {
        if x[i] != y[i] {
            return false;
        }
        i += 1;
    }
    assert(x@ =~= y@);
    true
}

/// `s` with every ASCII letter in upper case.
pub fn upper_text(s: &str) -> (r: String)
    ensures
        r@ == upper_all(s@),
{
    let v = chars_of(s);
    let mut out = String::new();
    let mut i: usize = 0;
    while i < v.len()
        invariant
            i <= v@.len(),
            v@ == s@,
            out@ == upper_all(s@).take(i as int),
        decreases v@.len() - i,
    {
        out.push(to_upper(v[i]));
        assert(upper_all(s@).take(i + 1) =~= upper_all(s@).take(i as int).push(upper(s@[i as int])));
        i += 1;
    }
    assert(upper_all(s@).take(i as int) =~= upper_all(s@));
    out
}

/// `s` with every ASCII letter in lower case.
pub fn lower_text(s: &str) -> (r: String)
    ensures
        r@ == lower_all(s@),
{
    let v = chars_of(s);
    let mut out = String::new();
    let mut i: usize = 0;
    while i < v.len()
        invariant
            i <= v@.len(),
            v@ == s@,
            out@ == lower_all(s@).take(i as int),
        decreases v@.len() - i,
    {
        out.push(to_lower(v[i]));
        assert(lower_all(s@).take(i + 1) =~= lower_all(s@).take(i as int).push(lower(s@[i as int])));
        i += 1;
    }
    assert(lower_all(s@).take(i as int) =~= lower_all(s@));
    out
}

pub fn cat(a: &str, b: &str) -> (r: String)
    ensures
        r@ == a@ + b@,
{
    let mut out = a.to_owned();
    out.append(b);
    out
}

pub fn cat3(a: &str, b: &str, c: &str) -> (r: String)
    ensures
        r@ == a@ + b@ + c@,
{
    let mut out = cat(a, b);
    out.append(c);
    out
}

pub fn cat4(a: &str, b: &str, c: &str, d: &str) -> (r: String)
    ensures
        r@ == a@ + b@ + c@ + d@,
{
    let mut out = cat3(a, b, c);
    out.append(d);
    out
}

pub fn cat5(a: &str, b: &str, c: &str, d: &str, e: &str) -> (r: String)
    ensures
        r@ == a@ + b@ + c@ + d@ + e@,
{
    let mut out = cat4(a, b, c, d);
    out.append(e);
    out
}

pub fn cat6(a: &str, b: &str, c: &str, d: &str, e: &str, f: &str) -> (r: String)
    ensures
        r@ == a@ + b@ + c@ + d@ + e@ + f@,
{
    let mut out = cat5(a, b, c, d, e);
    out.append(f);
    out
}

pub fn cat7(a: &str, b: &str, c: &str, d: &str, e: &str, f: &str, g: &str) -> (r: String)
    ensures
        r@ == a@ + b@ + c@ + d@ + e@ + f@ + g@,
{
    let mut out = cat6(a, b, c, d, e, f);
    out.append(g);
    out
}

// --- encoded length ------------------------------------------------------------

/// How many bytes a character takes in UTF-8.
pub open spec fn utf8_width(c: char) -> nat {
    let n = c as u32;
    if n < 0x80 {
        1
    } else if n < 0x800 {
        2
    } else if n < 0x1_0000 {
        3
    } else {
        4
    }
}

/// How many bytes a character takes inside a JSON string: some are written as
/// a backslash and a letter, other control characters as `\u` and four digits.
pub open spec fn json_width(c: char) -> nat {
    if c == '"' || c == '\\' || c == '\u{8}' || c == '\t' || c == '\n' || c == '\u{c}' || c == '\r' {
        2
    } else if (c as u32) < 0x20 {
        6
    } else {
        utf8_width(c)
    }
}

/// How many bytes a text takes inside a JSON string, without the quotes.
pub open spec fn json_len(s: Seq<char>) -> nat
    decreases s.len(),
{
    if s.len() == 0 {
        0
    } else {
        json_len(s.drop_last()) + json_width(s.last())
    }
}

proof fn json_len_grows(s: Seq<char>, i: int)
    requires
        0 <= i <= s.len(),
    ensures
        json_len(s.take(i)) <= json_len(s),
    decreases s.len(),
{
    if i == s.len() {
        assert(s.take(i) =~= s);
    } else {
        json_len_grows(s.drop_last(), i);
        assert(s.drop_last().take(i) =~= s.take(i));
    }
}

/// A printable ASCII character that JSON writes as it is.
pub open spec fn plain_char(c: char) -> bool {
    ' ' <= c <= '~' && c != '"' && c != '\\'
}

/// A text of plain characters takes one byte for each, and no text more than
/// six.
pub proof fn json_len_bounds(s: Seq<char>)
    ensures
        json_len(s) <= 6 * s.len(),
        (forall|i: int| 0 <= i < s.len() ==> plain_char(#[trigger] s[i])) ==> json_len(s)
            == s.len(),
    decreases s.len(),
{
    if s.len() > 0 {
        let t = s.drop_last();
        json_len_bounds(t);
        if forall|i: int| 0 <= i < s.len() ==> plain_char(#[trigger] s[i]) {
            assert forall|i: int| 0 <= i < t.len() implies plain_char(#[trigger] t[i]) by {
                assert(plain_char(s[i]));
            }
            assert(plain_char(s[s.len() - 1]));
        }
    }
}

/// What is left of `room` bytes once `s` stands in them as part of a JSON
/// string; nothing where it does not fit.
pub fn json_room(s: &str, room: u32) -> (r: Option<u32>)
    ensures
        match r {
            Some(left) => json_len(s@) + left == room,
            None => json_len(s@) > room,
        },
{
    let v = chars_of(s);
    let mut left: u32 = room;
    let mut i: usize = 0;
    assert(v@.take(0) =~= Seq::<char>::empty());
    while i < v.len()
        invariant
            i <= v@.len(),
            v@ == s@,
            json_len(v@.take(i as int)) + left == room,
        decreases v@.len() - i,
    {
        let c: char = v[i];
        let n: u32 = c as u32;
        let width: u32 = if c == '"' || c == '\\' || c == '\u{8}' || c == '\t' || c == '\n' || c
            == '\u{c}' || c == '\r' {
            2
        } else if n < 0x20 {
            6
        } else if n < 0x80 {
            1
        } else if n < 0x800 {
            2
        } else if n < 0x1_0000 {
            3
        } else {
            4
        };
        assert(v@.take(i + 1).drop_last() =~= v@.take(i as int));
        if width > left {
            proof {
                json_len_grows(v@, i + 1);
            }
            return None;
        }
        left = left - width;
        i += 1;
    }
    assert(v@.take(i as int) =~= v@);
    Some(left)
}

/// A filter that keeps everything changes nothing.
pub proof fn all_kept(s: Seq<char>, keep: spec_fn(char) -> bool)
    requires
        forall|i: int| 0 <= i < s.len() ==> keep(#[trigger] s[i]),
    ensures
        s.filter(keep) == s,
    decreases s.len(),
{
    reveal(Seq::filter);
    if s.len() > 0 {
        let t = s.drop_last();
        assert forall|i: int| 0 <= i < t.len() implies keep(#[trigger] t[i]) by {
            assert(t[i] == s[i]);
        }
        all_kept(t, keep);
        assert(keep(s[s.len() - 1]));
        assert(t.push(s.last()) =~= s);
    }
}

// --- trimming ----------------------------------------------------------------

/// What is left of `s` once the leading characters in `out` are gone.
pub open spec fn strip_front(s: Seq<char>, out: spec_fn(char) -> bool) -> Seq<char>
    decreases s.len(),
{
    if s.len() > 0 && out(s[0]) {
        strip_front(s.skip(1), out)
    } else {
        s
    }
}

/// What is left of `s` once the trailing characters in `out` are gone.
pub open spec fn strip_back(s: Seq<char>, out: spec_fn(char) -> bool) -> Seq<char>
    decreases s.len(),
{
    if s.len() > 0 && out(s.last()) {
        strip_back(s.drop_last(), out)
    } else {
        s
    }
}

/// `s` without leading and trailing white space.
pub open spec fn trimmed(s: Seq<char>) -> Seq<char> {
    strip_back(strip_front(s, |c: char| white_char(c)), |c: char| white_char(c))
}

/// `s` without leading and trailing full stops.
pub open spec fn undotted(s: Seq<char>) -> Seq<char> {
    strip_back(strip_front(s, |c: char| c == '.'), |c: char| c == '.')
}

/// A trimmed text is empty, or begins and ends with a character that stays.
pub proof fn stripped_ends(s: Seq<char>, out: spec_fn(char) -> bool)
    ensures
        strip_back(strip_front(s, out), out).len() > 0 ==> !out(
            strip_back(strip_front(s, out), out)[0],
        ) && !out(strip_back(strip_front(s, out), out).last()),
{
    stripped_front(s, out);
    stripped_back(strip_front(s, out), out);
}

proof fn stripped_front(s: Seq<char>, out: spec_fn(char) -> bool)
    ensures
        strip_front(s, out).len() > 0 ==> !out(strip_front(s, out)[0]),
    decreases s.len(),
{
    if s.len() > 0 && out(s[0]) {
        stripped_front(s.skip(1), out);
    }
}

proof fn stripped_back(s: Seq<char>, out: spec_fn(char) -> bool)
    ensures
        strip_back(s, out).len() <= s.len(),
        strip_back(s, out) == s.take(strip_back(s, out).len() as int),
        strip_back(s, out).len() > 0 ==> !out(strip_back(s, out).last()),
    decreases s.len(),
{
    if s.len() > 0 && out(s.last()) {
        stripped_back(s.drop_last(), out);
        let t = strip_back(s, out);
        assert(s.drop_last().take(t.len() as int) =~= s.take(t.len() as int));
    } else {
        assert(s.take(s.len() as int) =~= s);
    }
}

/// `s` without leading and trailing white space, as `str::trim` cuts it.
pub fn trim_text(s: &str) -> (r: String)
    ensures
        r@ == trimmed(s@),
{
    let v = chars_of(s);
    let ghost p = |c: char| white_char(c);
    let mut from: usize = 0;
    assert(v@.skip(0) =~= v@);
    while from < v.len() && is_white(v[from])
        invariant
            from <= v@.len(),
            p == (|c: char| white_char(c)),
            strip_front(v@, p) == strip_front(v@.skip(from as int), p),
        decreases v@.len() - from,
    {
        assert(v@.skip(from as int).skip(1) =~= v@.skip(from + 1));
        from += 1;
    }
    let mut to: usize = v.len();
    let ghost w = v@.skip(from as int);
    assert(strip_front(v@, p) == w);
    assert(v@.subrange(from as int, to as int) =~= w);
    while from < to && is_white(v[to - 1])
        invariant
            from <= to <= v@.len(),
            p == (|c: char| white_char(c)),
            strip_back(w, p) == strip_back(v@.subrange(from as int, to as int), p),
        decreases to - from,
    {
        assert(v@.subrange(from as int, to as int).drop_last() =~= v@.subrange(
            from as int,
            to - 1,
        ));
        to -= 1;
    }
    slice_text(&v, from, to)
}

/// `s` without leading and trailing full stops.
pub fn undot_text(s: &str) -> (r: String)
    ensures
        r@ == undotted(s@),
{
    let v = chars_of(s);
    let ghost p = |c: char| c == '.';
    let mut from: usize = 0;
    assert(v@.skip(0) =~= v@);
    while from < v.len() && v[from] == '.'
        invariant
            from <= v@.len(),
            p == (|c: char| c == '.'),
            strip_front(v@, p) == strip_front(v@.skip(from as int), p),
        decreases v@.len() - from,
    {
        assert(v@.skip(from as int).skip(1) =~= v@.skip(from + 1));
        from += 1;
    }
    let mut to: usize = v.len();
    let ghost w = v@.skip(from as int);
    assert(strip_front(v@, p) == w);
    assert(v@.subrange(from as int, to as int) =~= w);
    while from < to && v[to - 1] == '.'
        invariant
            from <= to <= v@.len(),
            p == (|c: char| c == '.'),
            strip_back(w, p) == strip_back(v@.subrange(from as int, to as int), p),
        decreases to - from,
    {
        assert(v@.subrange(from as int, to as int).drop_last() =~= v@.subrange(
            from as int,
            to - 1,
        ));
        to -= 1;
    }
    slice_text(&v, from, to)
}

// --- searching -----------------------------------------------------------------

/// Where the last `c` of `s` stands, or -1.
pub open spec fn last_at(s: Seq<char>, c: char) -> int
    decreases s.len(),
{
    if s.len() == 0 {
        -1
    } else if s.last() == c {
        s.len() - 1
    } else {
        last_at(s.drop_last(), c)
    }
}

/// What `last_at` says, told by positions.
pub proof fn last_at_is_last(s: Seq<char>, c: char)
    ensures
        -1 <= last_at(s, c) < s.len(),
        last_at(s, c) >= 0 ==> s[last_at(s, c)] == c,
        forall|i: int| last_at(s, c) < i < s.len() ==> s[i] != c,
    decreases s.len(),
{
    if s.len() > 0 && s.last() != c {
        last_at_is_last(s.drop_last(), c);
        assert forall|i: int| last_at(s, c) < i < s.len() implies s[i] != c by {
            if i < s.len() - 1 {
                assert(s.drop_last()[i] == s[i]);
            }
        }
    }
}

/// The position of the last `c` in `v`.
pub fn find_last(v: &Vec<char>, c: char) -> (r: Option<usize>)
    ensures
        match r {
            Some(i) => i == last_at(v@, c) && i < v@.len(),
            None => last_at(v@, c) == -1,
        },
{
    let mut n: usize = v.len();
    assert(v@.take(n as int) =~= v@);
    while n > 0
        invariant
            n <= v@.len(),
            last_at(v@, c) == last_at(v@.take(n as int), c),
        decreases n,
    {
        if v[n - 1] == c {
            return Some(n - 1);
        }
        assert(v@.take(n as int).drop_last() =~= v@.take(n - 1));
        n -= 1;
    }
    None
}

// --- numbers ---------------------------------------------------------------------

/// The decimal digit for `n`.
pub open spec fn dec_digit(n: int) -> char {
    (48 + n) as char
}

/// `n` in decimal, without leading zeros.
pub open spec fn dec(n: nat) -> Seq<char>
    decreases n,
{
    if n < 10 {
        seq![dec_digit(n as int)]
    } else {
        dec(n / 10).push(dec_digit((n % 10) as int))
    }
}

/// `n` in decimal.
pub fn dec_text(n: u64) -> (r: String)
    ensures
        r@ == dec(n as nat),
    decreases n,
{
    let d: char = (48 + (n % 10) as u8) as char;
    let mut out = if n < 10 {
        String::new()
    } else {
        dec_text(n / 10)
    };
    out.push(d);
    assert(out@ =~= dec(n as nat));
    out
}

/// A hexadecimal digit, in capitals.
pub open spec fn hex_upper(n: nat) -> char {
    if n < 10 {
        (48 + n) as char
    } else {
        (55 + n) as char
    }
}

/// A hexadecimal digit, in small letters.
pub open spec fn hex_lower(n: nat) -> char {
    if n < 10 {
        (48 + n) as char
    } else {
        (87 + n) as char
    }
}

/// What a hexadecimal digit stands for.
pub open spec fn hex_value(c: char) -> nat {
    if digit_char(c) {
        (c as u32 - 48) as nat
    } else if 'a' <= c <= 'f' {
        (c as u32 - 87) as nat
    } else {
        (c as u32 - 55) as nat
    }
}

pub fn upper_hex_digit(n: u8) -> (r: char)
    requires
        n < 16,
    ensures
        r == hex_upper(n as nat),
{
    if n < 10 {
        (48 + n) as char
    } else {
        (55 + n) as char
    }
}

pub fn lower_hex_digit(n: u8) -> (r: char)
    requires
        n < 16,
    ensures
        r == hex_lower(n as nat),
{
    if n < 10 {
        (48 + n) as char
    } else {
        (87 + n) as char
    }
}

pub fn hex_digit_value(c: char) -> (r: u8)
    requires
        hex_char(c),
    ensures
        r == hex_value(c),
        r < 16,
{
    let n: u8 = c as u8;
    if is_digit(c) {
        n - 48
    } else if 'a' <= c && c <= 'f' {
        n - 87
    } else {
        n - 55
    }
}

/// The value of a text of decimal digits.
pub open spec fn dec_value(s: Seq<char>) -> nat
    decreases s.len(),
{
    if s.len() == 0 {
        0
    } else {
        (10 * dec_value(s.drop_last()) + (s.last() as u32 - 48)) as nat
    }
}

pub open spec fn all_digits(s: Seq<char>) -> bool {
    forall|i: int| 0 <= i < s.len() ==> digit_char(#[trigger] s[i])
}

/// Writing a number down and reading it back gives the number.
pub proof fn dec_value_of_dec(n: nat)
    ensures
        dec_value(dec(n)) == n,
        all_digits(dec(n)),
        dec(n).len() > 0,
    decreases n,
{
    if n < 10 {
        assert(dec(n).drop_last() =~= Seq::<char>::empty());
        assert(dec_value(Seq::<char>::empty()) == 0);
    } else {
        dec_value_of_dec(n / 10);
        assert(dec(n).drop_last() =~= dec(n / 10));
        assert(dec(n).last() == dec_digit((n % 10) as int));
    }
}

/// What a text stands for as a number up to `max`: an optional `+`, then
/// digits only, at least one.
pub open spec fn number_up_to(s: Seq<char>, max: nat) -> Option<nat> {
    let digits = if s.len() > 0 && s[0] == '+' {
        s.skip(1)
    } else {
        s
    };
    if digits.len() > 0 && all_digits(digits) && dec_value(digits) <= max {
        Some(dec_value(digits))
    } else {
        None
    }
}

proof fn dec_value_grows(s: Seq<char>, i: int)
    requires
        0 <= i <= s.len(),
        all_digits(s),
    ensures
        dec_value(s.take(i)) <= dec_value(s),
    decreases s.len(),
{
    if i == s.len() {
        assert(s.take(i) =~= s);
    } else {
        assert forall|j: int| 0 <= j < s.drop_last().len() implies digit_char(
            #[trigger] s.drop_last()[j],
        ) by {
            assert(digit_char(s[j]));
        }
        dec_value_grows(s.drop_last(), i);
        assert(s.drop_last().take(i) =~= s.take(i));
        assert(digit_char(s[s.len() - 1]));
    }
}

/// The value of the digits `from..to`, unless it is over `max`.
pub fn digits_value(v: &Vec<char>, from: usize, to: usize, max: u64) -> (r: Option<u64>)
    requires
        from <= to <= v@.len(),
        max <= 0xffff_ffff,
    ensures
        ({
            let s = v@.subrange(from as int, to as int);
            match r {
                Some(n) => s.len() > 0 && all_digits(s) && dec_value(s) == n && n <= max,
                None => s.len() == 0 || !all_digits(s) || dec_value(s) > max,
            }
        }),
{
    if from == to {
        return None;
    }
    let ghost s = v@.subrange(from as int, to as int);
    let mut n: u64 = 0;
    let mut i: usize = from;
    assert(s.take(0) =~= Seq::<char>::empty());
    while i < to
        invariant
            from <= i <= to <= v@.len(),
            s == v@.subrange(from as int, to as int),
            max <= 0xffff_ffff,
            n <= max,
            n == dec_value(s.take(i - from)),
            forall|j: int| 0 <= j < i - from ==> digit_char(#[trigger] s[j]),
        decreases to - i,
    {
        let c: char = v[i];
        assert(s[i - from] == c);
        if !is_digit(c) {
            return None;
        }
        proof {
            let t = s.take(i + 1 - from);
            assert(t.drop_last() =~= s.take(i - from));
            assert(t.last() == c);
        }
        n = 10 * n + ((c as u32) - 48) as u64;
        if n > max {
            proof {
                if all_digits(s) {
                    dec_value_grows(s, i + 1 - from);
                }
            }
            return None;
        }
        i += 1;
    }
    assert(s.take(to - from) =~= s);
    Some(n)
}

/// A text read as a `u32` in decimal, as `str::parse` reads it.
pub fn parse_u32(v: &Vec<char>, from: usize) -> (r: Option<u32>)
    requires
        from <= v@.len(),
    ensures
        match r {
            Some(n) => number_up_to(v@.skip(from as int), u32::MAX as nat) == Some(n as nat),
            None => number_up_to(v@.skip(from as int), u32::MAX as nat) is None,
        },
{
    let ghost s = v@.skip(from as int);
    assert(v@.subrange(from as int, v@.len() as int) =~= s);
    let start: usize = if from < v.len() && v[from] == '+' {
        assert(s.skip(1) =~= v@.subrange(from + 1, v@.len() as int));
        from + 1
    } else {
        from
    };
    match digits_value(v, start, v.len(), 0xffff_ffff) {
        Some(n) => Some(n as u32),
        None => None,
    }
}

/// In `a`, then `c`, then a text without `c`, the last `c` is the one between.
pub proof fn last_at_between(a: Seq<char>, c: char, b: Seq<char>)
    requires
        !b.contains(c),
    ensures
        last_at(a + seq![c] + b, c) == a.len(),
{
    let s = a + seq![c] + b;
    let p = last_at(s, c);
    last_at_is_last(s, c);
    assert(s[a.len() as int] == c);
    if p > a.len() {
        assert(s[p] == b[p - a.len() - 1]);
    }
}

/// A number above zero is written without a leading zero.
pub proof fn dec_leads(n: nat)
    requires
        n > 0,
    ensures
        dec(n)[0] != '0',
    decreases n,
{
    if n >= 10 {
        dec_leads(n / 10);
        dec_value_of_dec(n / 10);
    }
}

/// What is left after stripping stood in the text before, in one piece.
pub proof fn stripped_is_a_piece(s: Seq<char>, out: spec_fn(char) -> bool) -> (k: int)
    ensures
        0 <= k,
        k + strip_back(strip_front(s, out), out).len() <= s.len(),
        strip_back(strip_front(s, out), out) == s.subrange(
            k,
            k + strip_back(strip_front(s, out), out).len(),
        ),
{
    let k = front_is_a_suffix(s, out);
    let f = strip_front(s, out);
    stripped_back(f, out);
    let b = strip_back(f, out);
    assert(b =~= s.subrange(k, k + b.len())) by {
        assert(b == f.take(b.len() as int));
    }
    k
}

proof fn front_is_a_suffix(s: Seq<char>, out: spec_fn(char) -> bool) -> (k: int)
    ensures
        0 <= k <= s.len(),
        strip_front(s, out) == s.skip(k),
    decreases s.len(),
{
    if s.len() > 0 && out(s[0]) {
        let k = front_is_a_suffix(s.skip(1), out);
        assert(s.skip(1).skip(k) =~= s.skip(k + 1));
        k + 1
    } else {
        assert(s.skip(0) =~= s);
        0
    }
}

} // verus!
