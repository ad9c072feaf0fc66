//! Percent-encoding of URL path segments and its inverse.

use vstd::prelude::*;
use vstd::utf8::*;
use vstd::string::*;
use crate::text::from_chars;

verus! {

broadcast use vstd::utf8::is_ascii_chars_encode_utf8;

// ------------------------------------------------------------------ encoding

/// Bytes written as themselves: `A-Z a-z 0-9 - _ . ~`.
pub open spec fn is_unreserved(b: u8) -> bool {
    ||| 0x41 <= b <= 0x5a
    ||| 0x61 <= b <= 0x7a
    ||| 0x30 <= b <= 0x39
    ||| b == 0x2d
    ||| b == 0x5f
    ||| b == 0x2e
    ||| b == 0x7e
}

/// The upper-case hexadecimal digit for `d < 16`.
pub open spec fn hex_upper(d: u8) -> char {
    if d < 10 {
        (0x30 + d) as char
    } else {
        (0x37 + d) as char
    }
}

/// How one byte is written: itself if unreserved, else `%XY` in upper-case hex.
pub open spec fn encode_byte(b: u8) -> Seq<char> {
    if is_unreserved(b) {
        seq![b as char]
    } else {
        seq!['%', hex_upper(b / 16), hex_upper(b % 16)]
    }
}

/// How one byte of a path is written: `/` stays, other bytes as [`encode_byte`].
pub open spec fn encode_path_byte(b: u8) -> Seq<char> {
    if b == 0x2f {
        seq!['/']
    } else {
        encode_byte(b)
    }
}

/// The encoding of one byte, keeping `/` or not.
pub open spec fn encode_piece(b: u8, keep_slash: bool) -> Seq<char> {
    if keep_slash {
        encode_path_byte(b)
    } else {
        encode_byte(b)
    }
}

/// The percent-encoding of a byte sequence, byte by byte.
pub open spec fn percent_encode(bs: Seq<u8>, keep_slash: bool) -> Seq<char>
    decreases bs.len(),
{
    if bs.len() == 0 {
        seq![]
    } else {
        encode_piece(bs[0], keep_slash) + percent_encode(bs.drop_first(), keep_slash)
    }
}

/// The percent-encoding of the UTF-8 bytes of `s` (one path segment).
pub open spec fn url_encode(s: Seq<char>) -> Seq<char> {
    percent_encode(encode_utf8(s), false)
}

/// The encoding of a whole path: each `/`-separated segment encoded, the
/// separators kept.
pub open spec fn path_encode(s: Seq<char>) -> Seq<char> {
    percent_encode(encode_utf8(s), true)
}

proof fn lemma_percent_encode_concat(a: Seq<u8>, b: Seq<u8>, k: bool)
    ensures
        percent_encode(a + b, k) == percent_encode(a, k) + percent_encode(b, k),
    decreases a.len(),
{
    if a.len() == 0 {
        assert(a + b =~= b);
    } else {
        assert((a + b).drop_first() =~= a.drop_first() + b);
        lemma_percent_encode_concat(a.drop_first(), b, k);
    }
}

proof fn lemma_percent_encode_snoc(bs: Seq<u8>, i: int, k: bool)
    requires
        0 <= i < bs.len(),
    ensures
        percent_encode(bs.take(i + 1), k) == percent_encode(bs.take(i), k) + encode_piece(bs[i], k),
{
    assert(bs.take(i + 1) =~= bs.take(i) + seq![bs[i]]);
    lemma_percent_encode_concat(bs.take(i), seq![bs[i]], k);
    assert(seq![bs[i]].drop_first() =~= Seq::<u8>::empty());
    assert(percent_encode(Seq::<u8>::empty(), k) =~= Seq::<char>::empty());
    assert(percent_encode(seq![bs[i]], k) =~= encode_piece(bs[i], k));
}

fn hex_digit_upper(d: u8) -> (c: char)
    requires
        d < 16,
    ensures
        c == hex_upper(d),
{
    if d < 10 {
        (0x30 + d) as char
    } else {
        (0x37 + d) as char
    }
}

fn encode_bytes(bytes: &[u8], keep_slash: bool) -> (r: String)
    ensures
        r@ == percent_encode(bytes@, keep_slash),
{
    let mut out: Vec<char> = Vec::new();
    let mut i: usize = 0;
    while i < bytes.len()
        invariant
            i <= bytes@.len(),
            out@ == percent_encode(bytes@.take(i as int), keep_slash),
        decreases bytes@.len() - i,
    {
        let b = bytes[i];
        proof {
            lemma_percent_encode_snoc(bytes@, i as int, keep_slash);
        }
        if keep_slash && b == 0x2f {
            out.push('/');
        } else if (0x41 <= b && b <= 0x5a) || (0x61 <= b && b <= 0x7a) || (0x30 <= b && b <= 0x39)
            || b == 0x2d || b == 0x5f || b == 0x2e || b == 0x7e {
            out.push(b as char);
        } else {
            out.push('%');
            out.push(hex_digit_upper(b / 16));
            out.push(hex_digit_upper(b % 16));
        }
        i = i + 1;
    }
    assert(bytes@.take(bytes@.len() as int) =~= bytes@);
    from_chars(out.as_slice())
}

/// Simple percent-encoding for a URL path segment: every byte of the UTF-8
/// form outside `A-Z a-z 0-9 - _ . ~` becomes `%XY`.
pub fn urlencoding_encode(s: &str) -> (r: String)
    ensures
        r@ == url_encode(s@),
{
    encode_bytes(s.as_bytes(), false)
}

/// URL-encodes the segments of a path one by one, keeping the `/` between them.
pub fn encode_path(path: &str) -> (r: String)
    ensures
        r@ == path_encode(path@),
{
    encode_bytes(path.as_bytes(), true)
}

// ------------------------------------------------------------------ decoding

/// ASCII hexadecimal digits.
pub open spec fn is_hex(b: u8) -> bool {
    ||| 0x30 <= b <= 0x39
    ||| 0x41 <= b <= 0x46
    ||| 0x61 <= b <= 0x66
}

/// The value of a hexadecimal digit.
pub open spec fn hex_value(b: u8) -> u8 {
    if b <= 0x39 {
        (b - 0x30) as u8
    } else if b <= 0x46 {
        (b - 0x37) as u8
    } else {
        (b - 0x57) as u8
    }
}

/// What `u8::from_str_radix(.., 16)` gives for the two bytes after a `%`:
/// two hex digits, or a `+` sign followed by one.
pub open spec fn escape_value(b1: u8, b2: u8) -> Option<u8> {
    if is_hex(b1) && is_hex(b2) {
        Some((hex_value(b1) * 16 + hex_value(b2)) as u8)
    } else if b1 == 0x2b && is_hex(b2) {
        Some(hex_value(b2))
    } else {
        None
    }
}

/// Percent-decoding of a byte sequence: a `%` followed by two more bytes that
/// form an escape is replaced by the byte it denotes; every other byte stays.
pub open spec fn pct_decode(bs: Seq<u8>) -> Seq<u8>
    decreases bs.len(),
{
    if bs.len() == 0 {
        seq![]
    } else if bs[0] == 0x25 && bs.len() > 2 && escape_value(bs[1], bs[2]) is Some {
        seq![escape_value(bs[1], bs[2])->0] + pct_decode(bs.skip(3))
    } else {
        seq![bs[0]] + pct_decode(bs.drop_first())
    }
}

/// Whether decoding `bs` (the UTF-8 bytes of a string) cuts a character in
/// two when it looks at the two bytes after a `%`, which the slicing of the
/// string does not allow.
pub open spec fn decode_panics(bs: Seq<u8>) -> bool
    decreases bs.len(),
{
    if bs.len() == 0 {
        false
    } else if bs[0] == 0x25 && bs.len() > 2 {
        if bs.len() > 3 && is_continuation_byte(bs[3]) {
            true
        } else if escape_value(bs[1], bs[2]) is Some {
            decode_panics(bs.skip(3))
        } else {
            decode_panics(bs.drop_first())
        }
    } else {
        decode_panics(bs.drop_first())
    }
}

/// What `String::from_utf8_lossy` gives for bytes that are not valid UTF-8.
pub uninterp spec fn utf8_lossy(bytes: Seq<u8>) -> Seq<char>;

/// The characters `String::from_utf8_lossy` reads from `bytes`.
pub open spec fn lossy_decode(bytes: Seq<u8>) -> Seq<char> {
    if valid_utf8(bytes) {
        decode_utf8(bytes)
    } else {
        utf8_lossy(bytes)
    }
}

/// `String::from_utf8_lossy(bytes).to_string()`. Its documentation says that
/// valid UTF-8 comes back as the same string; what replaces invalid
/// sequences is left to the name `utf8_lossy`.
#[verifier::external_body]
pub(crate) fn lossy_string(bytes: &[u8]) -> (s: String)
    ensures
        valid_utf8(bytes@) ==> s@ == decode_utf8(bytes@),
        !valid_utf8(bytes@) ==> s@ == utf8_lossy(bytes@),
{
    String::from_utf8_lossy(bytes).to_string()
}

/// The string that percent-decoding `s` gives.
pub open spec fn url_decode(s: Seq<char>) -> Seq<char> {
    lossy_decode(pct_decode(encode_utf8(s)))
}

fn escape(b1: u8, b2: u8) -> (r: Option<u8>)
    ensures
        r == escape_value(b1, b2),
{
    let h1 = (0x30 <= b1 && b1 <= 0x39) || (0x41 <= b1 && b1 <= 0x46) || (0x61 <= b1 && b1 <= 0x66);
    let h2 = (0x30 <= b2 && b2 <= 0x39) || (0x41 <= b2 && b2 <= 0x46) || (0x61 <= b2 && b2 <= 0x66);
    if !h2 {
        return None;
    }
    let v2: u8 = if b2 <= 0x39 { b2 - 0x30 } else if b2 <= 0x46 { b2 - 0x37 } else { b2 - 0x57 };
    if h1 {
        let v1: u8 = if b1 <= 0x39 { b1 - 0x30 } else if b1 <= 0x46 { b1 - 0x37 } else { b1 - 0x57 };
        Some(v1 * 16 + v2)
    } else if b1 == 0x2b && h2 {
        Some(v2)
    } else {
        None
    }
}

/// Whether `urldecoding_decode` can run on `s` (see [`decode_panics`]).
pub fn decode_is_safe(s: &str) -> (r: bool)
    ensures
        r == !decode_panics(s.spec_bytes()),
{
    let bytes = s.as_bytes();
    let n = bytes.len();
    let ghost bs = bytes@;
    let mut i: usize = 0;
    assert(bs.skip(0) =~= bs);
    while i < n
        invariant
            bs == bytes@,
            bs == s.spec_bytes(),
            n == bs.len(),
            i <= n,
            decode_panics(bs) == decode_panics(bs.skip(i as int)),
        decreases n - i,
    {
        let ghost rest = bs.skip(i as int);
        assert(rest.drop_first() =~= bs.skip(i + 1));
        if bytes[i] == 0x25 && n - i > 2 {
            assert(rest.skip(3) =~= bs.skip(i + 3));
            if n - i > 3 && 0x80 <= bytes[i + 3] && bytes[i + 3] <= 0xbf {
                assert(rest[0] == bs[i as int] && rest[3] == bs[i + 3]);
                assert(rest.len() == n - i);
                assert(decode_panics(rest));
                return false;
            }
            assert(rest[0] == bs[i as int] && rest[1] == bs[i + 1] && rest[2] == bs[i + 2]);
            assert(n - i > 3 ==> rest[3] == bs[i + 3]);
            if escape(bytes[i + 1], bytes[i + 2]).is_some() {
                i = i + 3;
                continue;
            }
        }
        i = i + 1;
    }
    assert(bs.skip(n as int) =~= Seq::<u8>::empty());
    true
}

/// Simple percent-decoding: `%XY` escapes become the byte they denote, the
/// result is read as UTF-8 (invalid sequences replaced).
pub fn urldecoding_decode(s: &str) -> (r: String)
    requires
        !decode_panics(s.spec_bytes()),
    ensures
        r@ == url_decode(s@),
{
    let bytes = s.as_bytes();
    let n = bytes.len();
    let ghost bs = bytes@;
    let mut out: Vec<u8> = Vec::new();
    let mut i: usize = 0;
    assert(bs.skip(0) =~= bs);
    assert(out@ + bs =~= bs);
    while i < n
        invariant
            bs == bytes@,
            bs == encode_utf8(s@),
            n == bs.len(),
            i <= n,
            pct_decode(bs) == out@ + pct_decode(bs.skip(i as int)),
        decreases n - i,
    {
        let ghost rest = bs.skip(i as int);
        assert(rest.drop_first() =~= bs.skip(i + 1));
        assert(rest[0] == bs[i as int]);
        if bytes[i] == 0x25 && n - i > 2 {
            assert(rest.skip(3) =~= bs.skip(i + 3));
            assert(rest[1] == bs[i + 1] && rest[2] == bs[i + 2]);
            match escape(bytes[i + 1], bytes[i + 2]) {
                Some(v) => {
                    out.push(v);
                    i = i + 3;
                    continue;
                },
                None => {},
            }
        }
        out.push(bytes[i]);
        i = i + 1;
    }
    assert(bs.skip(n as int) =~= Seq::<u8>::empty());
    assert(out@ =~= pct_decode(bs));
    lossy_string(out.as_slice())
}

// ------------------------------------------------------------------ laws

proof fn lemma_hex_roundtrip(b: u8)
    ensures
        is_hex(hex_upper(b / 16) as u8),
        is_hex(hex_upper(b % 16) as u8),
        escape_value(hex_upper(b / 16) as u8, hex_upper(b % 16) as u8) == Some(b),
{
    let d1 = b / 16;
    let d2 = b % 16;
    assert(hex_value(hex_upper(d1) as u8) == d1);
    assert(hex_value(hex_upper(d2) as u8) == d2);
    assert(d1 * 16 + d2 == b);
}

/// The bytes of the ASCII text `percent_encode` writes.
proof fn lemma_encoded_is_ascii(bs: Seq<u8>, k: bool)
    ensures
        is_ascii_chars(percent_encode(bs, k)),
    decreases bs.len(),
{
    if bs.len() > 0 {
        lemma_encoded_is_ascii(bs.drop_first(), k);
        let p = encode_piece(bs[0], k);
        let r = percent_encode(bs.drop_first(), k);
        assert(is_ascii_chars(p)) by {
            let b = bs[0];
            let d1 = b / 16;
            let d2 = b % 16;
            assert(hex_upper(d1) as u32 <= 0x46);
            assert(hex_upper(d2) as u32 <= 0x46);
        }
        assert forall|i: int| 0 <= i < (p + r).len() implies '\0' <= #[trigger] (p + r)[i] <= '\u{7f}' by {
            if i < p.len() {
                assert((p + r)[i] == p[i]);
            } else {
                assert((p + r)[i] == r[i - p.len()]);
            }
        }
    }
}

/// The bytes of an ASCII character sequence are its characters.
proof fn lemma_ascii_bytes(cs: Seq<char>)
    requires
        is_ascii_chars(cs),
    ensures
        encode_utf8(cs) == cs.map_values(|c: char| c as u8),
{
    assert(encode_utf8(cs) =~= cs.map_values(|c: char| c as u8));
}

/// Decoding undoes encoding, byte sequence by byte sequence, and never cuts
/// a character on the way.
proof fn lemma_decode_encoded(bs: Seq<u8>, k: bool)
    ensures
        pct_decode(percent_encode(bs, k).map_values(|c: char| c as u8)) == bs,
        !decode_panics(percent_encode(bs, k).map_values(|c: char| c as u8)),
    decreases bs.len(),
{
    let f = |c: char| c as u8;
    if bs.len() == 0 {
        assert(percent_encode(bs, k).map_values(f) =~= Seq::<u8>::empty());
        assert(bs =~= Seq::<u8>::empty());
    } else {
        let b = bs[0];
        let p = encode_piece(b, k);
        let r = percent_encode(bs.drop_first(), k);
        lemma_decode_encoded(bs.drop_first(), k);
        let all = (p + r).map_values(f);
        assert(all =~= p.map_values(f) + r.map_values(f));
        if k && b == 0x2f {
            assert(all.drop_first() =~= r.map_values(f));
            assert(all[0] == 0x2f);
        } else if is_unreserved(b) {
            assert(p == seq![b as char]);
            assert((b as char) as u8 == b);
            assert(all.drop_first() =~= r.map_values(f));
            assert(all[0] == b);
        } else {
            lemma_hex_roundtrip(b);
            assert(all[0] == 0x25);
            assert(all[1] == hex_upper(b / 16) as u8);
            assert(all[2] == hex_upper(b % 16) as u8);
            assert(all.skip(3) =~= r.map_values(f));
            assert(all.len() > 3 ==> !is_continuation_byte(all[3])) by {
                if all.len() > 3 {
                    lemma_encoded_is_ascii(bs.drop_first(), k);
                    assert(all[3] == r[0] as u8);
                }
            }
        }
        assert(pct_decode(all) =~= bs);
    }
}

/// Percent-decoding a percent-encoded path segment gives the segment back,
/// and the decoding can always run on it.
pub proof fn law_decode_inverts_encode(s: Seq<char>)
    ensures
        !decode_panics(encode_utf8(url_encode(s))),
        url_decode(url_encode(s)) == s,
{
    broadcast use vstd::utf8::encode_utf8_decode_utf8, vstd::utf8::encode_utf8_valid_utf8;
    lemma_encoded_is_ascii(encode_utf8(s), false);
    lemma_ascii_bytes(url_encode(s));
    lemma_decode_encoded(encode_utf8(s), false);
}

/// Percent-decoding an encoded path gives the path back, separators included.
pub proof fn law_decode_inverts_encode_path(s: Seq<char>)
    ensures
        !decode_panics(encode_utf8(path_encode(s))),
        url_decode(path_encode(s)) == s,
{
    broadcast use vstd::utf8::encode_utf8_decode_utf8, vstd::utf8::encode_utf8_valid_utf8;
    lemma_encoded_is_ascii(encode_utf8(s), true);
    lemma_ascii_bytes(path_encode(s));
    lemma_decode_encoded(encode_utf8(s), true);
}

/// Encoded text holds only ASCII characters.
pub proof fn law_encoding_is_ascii(s: Seq<char>)
    ensures
        is_ascii_chars(url_encode(s)),
        is_ascii_chars(path_encode(s)),
{
    lemma_encoded_is_ascii(encode_utf8(s), false);
    lemma_encoded_is_ascii(encode_utf8(s), true);
}


/// The lower-case hexadecimal digit for `d < 16`, as a byte.
pub open spec fn hex_lower_byte(d: u8) -> u8 {
    if d < 10 {
        (0x30 + d) as u8
    } else {
        (0x57 + d) as u8
    }
}

/// The upper-case hexadecimal digit for `d < 16`, as a byte.
pub open spec fn hex_upper_byte(d: u8) -> u8 {
    if d < 10 {
        (0x30 + d) as u8
    } else {
        (0x37 + d) as u8
    }
}

/// Decoding reads an escape written in either case: `%` followed by the two
/// hexadecimal digits of a byte, lower-case (`%c3`) or upper-case (`%C3`),
/// gives that byte, and decoding goes on after it.
pub proof fn law_decode_reads_both_cases(b: u8, rest: Seq<u8>)
    ensures
        pct_decode(seq![0x25u8, hex_lower_byte(b / 16), hex_lower_byte(b % 16)] + rest) == seq![b] + pct_decode(rest),
        pct_decode(seq![0x25u8, hex_upper_byte(b / 16), hex_upper_byte(b % 16)] + rest) == seq![b] + pct_decode(rest),
{
    let d1 = b / 16;
    let d2 = b % 16;
    assert(d1 * 16 + d2 == b);
    let lo = seq![0x25u8, hex_lower_byte(d1), hex_lower_byte(d2)] + rest;
    let up = seq![0x25u8, hex_upper_byte(d1), hex_upper_byte(d2)] + rest;
    assert(is_hex(hex_lower_byte(d1)) && hex_value(hex_lower_byte(d1)) == d1);
    assert(is_hex(hex_lower_byte(d2)) && hex_value(hex_lower_byte(d2)) == d2);
    assert(is_hex(hex_upper_byte(d1)) && hex_value(hex_upper_byte(d1)) == d1);
    assert(is_hex(hex_upper_byte(d2)) && hex_value(hex_upper_byte(d2)) == d2);
    assert(lo[0] == 0x25 && lo[1] == hex_lower_byte(d1) && lo[2] == hex_lower_byte(d2));
    assert(up[0] == 0x25 && up[1] == hex_upper_byte(d1) && up[2] == hex_upper_byte(d2));
    assert(escape_value(lo[1], lo[2]) == Some(b));
    assert(escape_value(up[1], up[2]) == Some(b));
    assert(lo.skip(3) =~= rest);
    assert(up.skip(3) =~= rest);
}

/// In particular an ASCII character written as a lower-case escape (as
/// `%2f` for `/`) decodes to itself.
pub proof fn law_decode_lower_case_ascii(b: u8)
    requires
        b < 0x80,
    ensures
        url_decode(seq!['%', hex_lower_byte(b / 16) as char, hex_lower_byte(b % 16) as char]) == seq![b as char],
{
    broadcast use vstd::utf8::encode_utf8_decode_utf8, vstd::utf8::encode_utf8_valid_utf8;
    let cs = seq!['%', hex_lower_byte(b / 16) as char, hex_lower_byte(b % 16) as char];
    assert(is_ascii_chars(cs));
    let bs = encode_utf8(cs);
    assert(bs =~= seq![0x25u8, hex_lower_byte(b / 16), hex_lower_byte(b % 16)]);
    law_decode_reads_both_cases(b, seq![]);
    assert(seq![0x25u8, hex_lower_byte(b / 16), hex_lower_byte(b % 16)] + Seq::<u8>::empty() =~= bs);
    assert(pct_decode(Seq::<u8>::empty()) =~= Seq::<u8>::empty());
    assert(pct_decode(bs) =~= seq![b]);
    let one = seq![b as char];
    assert(is_ascii_chars(one));
    assert(encode_utf8(one) =~= seq![b]);
}


/// How many times `x` occurs in `s`.
pub open spec fn count_of<A>(s: Seq<A>, x: A) -> nat
    decreases s.len(),
{
    if s.len() == 0 {
        0
    } else {
        count_of(s.drop_first(), x) + if s[0] == x {
            1nat
        } else {
            0nat
        }
    }
}

proof fn lemma_count_concat<A>(a: Seq<A>, b: Seq<A>, x: A)
    ensures
        count_of(a + b, x) == count_of(a, x) + count_of(b, x),
    decreases a.len(),
{
    if a.len() == 0 {
        assert(a + b =~= b);
    } else {
        assert((a + b).drop_first() =~= a.drop_first() + b);
        assert((a + b)[0] == a[0]);
        lemma_count_concat(a.drop_first(), b, x);
    }
}

proof fn lemma_count_small<A>(s: Seq<A>, x: A)
    requires
        s.len() <= 4,
    ensures
        s.len() == 1 ==> count_of(s, x) == (if s[0] == x { 1nat } else { 0nat }),
        (forall|i: int| 0 <= i < s.len() ==> s[i] != x) ==> count_of(s, x) == 0,
    decreases s.len(),
{
    if s.len() > 0 {
        lemma_count_small(s.drop_first(), x);
        assert forall|i: int| 0 <= i < s.drop_first().len() implies s.drop_first()[i] == s[i + 1] by {}
    }
}

proof fn lemma_scalar_slashes(c: char)
    ensures
        count_of(encode_scalar(c as u32), 0x2fu8) == if c == '/' { 1nat } else { 0nat },
{
    let v = c as u32;
    let e = encode_scalar(v);
    lemma_count_small(e, 0x2fu8);
    if has_width_1_encoding(v) {
        assert((v & 0x7f) as u8 == v as u8 && (v as u8 == 0x2f <==> v == 0x2f)) by (bit_vector)
            requires
                v <= 0x7f,
        ;
        assert(e == seq![leading_byte_width_1(v)]);
    } else if has_width_2_encoding(v) {
        assert(0xC0 | ((v >> 6) & 0x1F) as u8 != 0x2f && 0x80 | (v & 0x3F) as u8 != 0x2f) by (bit_vector);
        assert(forall|i: int| 0 <= i < e.len() ==> e[i] != 0x2fu8);
    } else if has_width_3_encoding(v) {
        assert(0xE0 | ((v >> 12) & 0x0F) as u8 != 0x2f && 0x80 | ((v >> 6) & 0x3F) as u8 != 0x2f && 0x80
            | (v & 0x3F) as u8 != 0x2f) by (bit_vector);
        assert(forall|i: int| 0 <= i < e.len() ==> e[i] != 0x2fu8);
    } else {
        assert(0xF0 | ((v >> 18) & 0x7) as u8 != 0x2f && 0x80 | ((v >> 12) & 0x3F) as u8 != 0x2f && 0x80
            | ((v >> 6) & 0x3F) as u8 != 0x2f && 0x80 | (v & 0x3F) as u8 != 0x2f) by (bit_vector);
        assert(forall|i: int| 0 <= i < e.len() ==> e[i] != 0x2fu8);
    }
}

proof fn lemma_utf8_slashes(cs: Seq<char>)
    ensures
        count_of(encode_utf8(cs), 0x2fu8) == count_of(cs, '/'),
    decreases cs.len(),
{
    if cs.len() > 0 {
        lemma_utf8_slashes(cs.drop_first());
        lemma_count_concat(encode_scalar(cs[0] as u32), encode_utf8(cs.drop_first()), 0x2fu8);
        lemma_scalar_slashes(cs[0]);
    }
}

proof fn lemma_piece_slashes(b: u8, k: bool)
    ensures
        count_of(encode_piece(b, k), '/') == if k && b == 0x2f { 1nat } else { 0nat },
{
    let p = encode_piece(b, k);
    lemma_count_small(p, '/');
    if k && b == 0x2f {
    } else if is_unreserved(b) {
        assert(p == seq![b as char]);
        assert(b != 0x2f);
        assert((b as char) != '/');
    } else {
        let d1 = b / 16;
        let d2 = b % 16;
        assert(hex_upper(d1) as u32 >= 0x30 && hex_upper(d2) as u32 >= 0x30);
        assert(p == seq!['%', hex_upper(d1), hex_upper(d2)]);
        assert(forall|i: int| 0 <= i < p.len() ==> p[i] != '/');
    }
}

proof fn lemma_encoded_slashes(bs: Seq<u8>, k: bool)
    ensures
        k ==> count_of(percent_encode(bs, k), '/') == count_of(bs, 0x2fu8),
        !k ==> count_of(percent_encode(bs, k), '/') == 0,
    decreases bs.len(),
{
    if bs.len() > 0 {
        lemma_encoded_slashes(bs.drop_first(), k);
        lemma_count_concat(encode_piece(bs[0], k), percent_encode(bs.drop_first(), k), '/');
        lemma_piece_slashes(bs[0], k);
    }
}

/// Encoding a path keeps its separators, one `/` for each `/` of the path,
/// while encoding a segment leaves no `/` at all.
pub proof fn law_path_encode_keeps_separators(s: Seq<char>)
    ensures
        count_of(path_encode(s), '/') == count_of(s, '/'),
        count_of(url_encode(s), '/') == 0,
{
    lemma_encoded_slashes(encode_utf8(s), true);
    lemma_encoded_slashes(encode_utf8(s), false);
    lemma_utf8_slashes(s);
}

} // verus!
