//! Text decoding, line endings and content hashes for files that the
//! application reads and writes.
use vstd::prelude::*;
use vstd::utf8::{decode_utf8, valid_utf8};
use crate::text::{chars_of, contains, contains_lit, has_prefix, string_from};

verus! {

/// SHA-256 of `data`.
pub uninterp spec fn sha256_digest(data: Seq<u8>) -> Seq<u8>;

/// The characters that `String::from_utf8_lossy` makes of `bytes`.
pub uninterp spec fn utf8_lossy(bytes: Seq<u8>) -> Seq<char>;

/// Lossy UTF-16 decoding: a unit outside the surrogate range is its own
/// character, a lead surrogate followed by a trail surrogate is the character
/// they encode together, and every other surrogate is U+FFFD.
pub open spec fn utf16_lossy(units: Seq<u16>) -> Seq<char>
    decreases units.len(),
{
    if units.len() == 0 {
        seq![]
    } else {
        let u = units[0];
        if u < 0xD800 || u > 0xDFFF {
            seq![u as char] + utf16_lossy(units.drop_first())
        } else if u <= 0xDBFF && units.len() >= 2 && 0xDC00 <= units[1] <= 0xDFFF {
            seq![(0x10000 + (u - 0xD800) * 0x400 + (units[1] - 0xDC00)) as char] + utf16_lossy(
                units.skip(2),
            )
        } else {
            seq!['\u{FFFD}'] + utf16_lossy(units.drop_first())
        }
    }
}

/// `sha2::Sha256::digest`: the SHA-256 digest of `data`, 32 bytes.
#[verifier::external_body]
fn sha256_bytes(data: &[u8]) -> (r: Vec<u8>)
    ensures
        r@ == sha256_digest(data@),
        r@.len() == 32,
{
    <sha2::Sha256 as sha2::Digest>::digest(data).to_vec()
}

/// `String::from_utf8_lossy`: the decoded text, each invalid sequence
/// replaced by U+FFFD; valid UTF-8 decodes as UTF-8 does.
#[verifier::external_body]
fn utf8_lossy_string(bytes: &[u8]) -> (r: String)
    ensures
        r@ == utf8_lossy(bytes@),
        valid_utf8(bytes@) ==> r@ == decode_utf8(bytes@),
{
    String::from_utf8_lossy(bytes).into_owned()
}

/// `String::from_utf16_lossy`: the decoded text, each unpaired surrogate
/// replaced by U+FFFD (see `utf16_lossy`).
#[verifier::external_body]
fn utf16_lossy_string(units: &[u16]) -> (r: String)
    ensures
        r@ == utf16_lossy(units@),
{
    String::from_utf16_lossy(units)
}

/// The 16-bit units of `b[2..]`, two bytes each (a final odd byte dropped),
/// little- or big-endian.
pub open spec fn units_of(b: Seq<u8>, little: bool) -> Seq<u16> {
    Seq::new(
        ((b.len() - 2) / 2) as nat,
        |k: int|
            if little {
                (b[2 + 2 * k] + 256 * b[3 + 2 * k]) as u16
            } else {
                (256 * b[2 + 2 * k] + b[3 + 2 * k]) as u16
            },
    )
}

/// The text of a file's bytes: UTF-16 after a little- or big-endian byte
/// order mark, else UTF-8 (each lossily).
pub open spec fn decode_spec(b: Seq<u8>) -> Seq<char> {
    if b.len() >= 2 && b[0] == 0xFF && b[1] == 0xFE {
        utf16_lossy(units_of(b, true))
    } else if b.len() >= 2 && b[0] == 0xFE && b[1] == 0xFF {
        utf16_lossy(units_of(b, false))
    } else {
        utf8_lossy(b)
    }
}

fn units_exec(b: &[u8], little: bool) -> (r: Vec<u16>)
    requires
        b@.len() >= 2,
    ensures
        r@ == units_of(b@, little),
{
    let mut u: Vec<u16> = Vec::new();
    let mut i: usize = 2;
    while i + 1 < b.len()
        invariant
            2 <= i <= b@.len(),
            b@.len() >= 2,
            i == 2 + 2 * u@.len(),
            forall|k: int| 0 <= k < u@.len() ==> #[trigger] u@[k] == (if little {
                (b@[2 + 2 * k] + 256 * b@[3 + 2 * k]) as u16
            } else {
                (256 * b@[2 + 2 * k] + b@[3 + 2 * k]) as u16
            }),
        decreases b@.len() + 1 - i,
    {
        let lo = b[i] as u16;
        let hi = b[i + 1] as u16;
        let v: u16 = if little {
            lo + 256 * hi
        } else {
            256 * lo + hi
        };
        u.push(v);
        i = i + 2;
    }
    let ghost n: int = u@.len() as int;
    let ghost m: int = b@.len() as int;
    assert(n == (m - 2) / 2);
    assert(u@ =~= units_of(b@, little));
    u
}

/// Decode a file's bytes as text (see `decode_spec`).
pub fn decode_text_bytes(bytes: &[u8]) -> (r: String)
    ensures
        r@ == decode_spec(bytes@),
{
    if bytes.len() >= 2 && bytes[0] == 0xFF && bytes[1] == 0xFE {
        let u = units_exec(bytes, true);
        return utf16_lossy_string(u.as_slice());
    }
    if bytes.len() >= 2 && bytes[0] == 0xFE && bytes[1] == 0xFF {
        let u = units_exec(bytes, false);
        return utf16_lossy_string(u.as_slice());
    }
    utf8_lossy_string(bytes)
}

/// The line ending of existing content: CRLF where it has one, else LF.
pub fn detect_eol(content: &str) -> (r: &'static str)
    ensures
        r@ == (if contains(content@, "\r\n"@) {
            "\r\n"@
        } else {
            "\n"@
        }),
{
    proof {
        reveal_strlit("\r\n");
    }
    let v = chars_of(content);
    if contains_lit(&v, "\r\n") {
        "\r\n"
    } else {
        "\n"
    }
}

/// `s` with every line ending (CRLF or LF) written as `eol`: the effect of
/// `replace("\r\n", "\n")` followed by `replace('\n', eol)`.
pub open spec fn with_eol(s: Seq<char>, eol: Seq<char>) -> Seq<char>
    decreases s.len(),
{
    if s.len() == 0 {
        seq![]
    } else if has_prefix(s, seq!['\r', '\n']) {
        eol + with_eol(s.skip(2), eol)
    } else if s[0] == '\n' {
        eol + with_eol(s.drop_first(), eol)
    } else {
        seq![s[0]] + with_eol(s.drop_first(), eol)
    }
}


/// Every line feed is part of a CRLF pair.
pub open spec fn all_crlf(r: Seq<char>) -> bool {
    forall|i: int| 0 <= i < r.len() && #[trigger] r[i] == '\n' ==> i > 0 && r[i - 1] == '\r'
}

proof fn lemma_crlf(s: Seq<char>)
    ensures
        all_crlf(with_eol(s, seq!['\r', '\n'])),
        with_eol(s, seq!['\r', '\n']).len() > 0 ==> with_eol(s, seq!['\r', '\n'])[0] != '\n',
    decreases s.len(),
{
    let e = seq!['\r', '\n'];
    if s.len() > 0 {
        let rest = if has_prefix(s, seq!['\r', '\n']) {
            s.skip(2)
        } else {
            s.drop_first()
        };
        lemma_crlf(rest);
        let tail = with_eol(rest, e);
        let r = with_eol(s, e);
        let head = if has_prefix(s, seq!['\r', '\n']) || s[0] == '\n' {
            e
        } else {
            seq![s[0]]
        };
        assert(r == head + tail);
        assert forall|i: int| 0 <= i < r.len() && #[trigger] r[i] == '\n' implies i > 0 && r[i - 1] == '\r' by {
            if i >= head.len() {
                assert(r[i] == tail[i - head.len()]);
                if i == head.len() {
                    assert(tail[0] == '\n');
                } else {
                    assert(r[i - 1] == tail[i - head.len() - 1]);
                }
            }
        }
    }
}

/// Normalizing to CRLF leaves no line feed without its carriage return.
pub proof fn law_crlf_normalization(s: Seq<char>)
    ensures
        all_crlf(with_eol(s, "\r\n"@)),
{
    reveal_strlit("\r\n");
    assert("\r\n"@ =~= seq!['\r', '\n']);
    lemma_crlf(s);
}

/// Rewrite the line endings of `text` as `eol`.
pub fn normalize_eol(text: &str, eol: &str) -> (r: String)
    ensures
        r@ == with_eol(text@, eol@),
{
    let v = chars_of(text);
    let e = chars_of(eol);
    let mut out: Vec<char> = Vec::new();
    let mut i: usize = 0;
    assert(v@.skip(0) == v@);
    while i < v.len()
        invariant
            i <= v.len(),
            e@ == eol@,
            out@ + with_eol(v@.skip(i as int), eol@) == with_eol(text@, eol@),
            v@ == text@,
        decreases v.len() - i,
    {
        let ghost t = v@.skip(i as int);
        let ghost before = out@;
        let step: usize = if i + 1 < v.len() && v[i] == '\r' && v[i + 1] == '\n' {
            2
        } else {
            1
        };
        if step == 2 || v[i] == '\n' {
            let mut k: usize = 0;
            while k < e.len()
                invariant
                    k <= e.len(),
                    out@ == before + e@.take(k as int),
                decreases e.len() - k,
            {
                out.push(e[k]);
                assert(e@.take(k + 1) == e@.take(k as int).push(e[k as int]));
                k = k + 1;
            }
            assert(e@.take(e.len() as int) == e@);
        } else {
            out.push(v[i]);
        }
        proof {
            assert(t[0] == v@[i as int]);
            if step == 2 {
                assert(t.take(2) =~= seq!['\r', '\n']);
                assert(t.skip(2) == v@.skip(i + 2));
            } else {
                if i + 1 < v.len() {
                    assert(t[1] == v@[i + 1]);
                }
                assert(!has_prefix(t, seq!['\r', '\n']));
                assert(t.drop_first() == v@.skip(i + 1));
            }
            assert(out@ + with_eol(v@.skip(i + step), eol@) =~= before + with_eol(t, eol@));
        }
        i = i + step;
    }
    assert(v@.skip(v.len() as int) =~= Seq::<char>::empty());
    assert(out@ + Seq::<char>::empty() == out@);
    string_from(&out)
}

pub open spec fn hex_lower(d: nat) -> char {
    crate::content_source::hex_digit(d)
}

/// Lower-case hexadecimal of `bytes`, two digits per byte.
pub open spec fn hex_of_bytes(bytes: Seq<u8>) -> Seq<char>
    decreases bytes.len(),
{
    if bytes.len() == 0 {
        seq![]
    } else {
        hex_of_bytes(bytes.drop_last()) + seq![hex_lower((bytes.last() / 16) as nat), hex_lower((bytes.last() % 16) as nat)]
    }
}

fn hex_char(d: u8) -> (c: char)
    requires
        d < 16,
    ensures
        c == hex_lower(d as nat),
{
    if d == 0 { '0' } else if d == 1 { '1' } else if d == 2 { '2' } else if d == 3 { '3' }
    else if d == 4 { '4' } else if d == 5 { '5' } else if d == 6 { '6' } else if d == 7 { '7' }
    else if d == 8 { '8' } else if d == 9 { '9' } else if d == 10 { 'a' } else if d == 11 { 'b' }
    else if d == 12 { 'c' } else if d == 13 { 'd' } else if d == 14 { 'e' } else { 'f' }
}

/// The SHA-256 digest of `data` in lower-case hexadecimal.
pub fn hex_sha256(data: &[u8]) -> (r: String)
    ensures
        r@ == hex_of_bytes(sha256_digest(data@)),
        r@.len() == 64,
{
    let d = sha256_bytes(data);
    let mut out: Vec<char> = Vec::new();
    let mut i: usize = 0;
    assert(d@.take(0) =~= Seq::<u8>::empty());
    while i < d.len()
        invariant
            i <= d.len(),
            out@ == hex_of_bytes(d@.take(i as int)),
            out@.len() == 2 * i,
        decreases d.len() - i,
    {
        let b = d[i];
        out.push(hex_char(b / 16));
        out.push(hex_char(b % 16));
        assert(d@.take(i + 1).drop_last() == d@.take(i as int));
        assert(d@.take(i + 1).last() == b);
        i = i + 1;
    }
    assert(d@.take(d.len() as int) == d@);
    string_from(&out)
}

} // verus!
