//! Incremental reading support: encoding detection by byte-order marker and
//! decoding of newly read byte ranges into logical lines.
//!
//! The file handling itself is the caller's: it hands in the bytes it read
//! and keeps the offset; everything from bytes to lines is verified, with
//! the two std decoders behind trusted wrappers.

use vstd::prelude::*;

use vstd::utf8::encode_utf8;

use crate::text::chars_to_string;
use crate::text::find_sub_from;
use crate::text::lemma_find_sub_some;
use crate::text::str_chars;
use crate::text::subrange_copy;

verus! {

/// How a log file is encoded on disk.
#[derive(Clone, Copy, Debug, PartialEq, Eq, Structural)]
pub enum Encoding {
    /// Byte-oriented UTF-8 (no marker).
    Utf8,
    /// UTF-16 little-endian, marked by `0xFF 0xFE` at offset zero.
    Utf16le,
}

/// The fixed two-byte little-endian marker.
pub open spec fn bom_marker() -> Seq<u8> {
    seq![0xffu8, 0xfeu8]
}

/// True when the file content begins with the marker.
pub open spec fn has_bom(bytes: Seq<u8>) -> bool {
    bytes.len() >= 2 && bytes[0] == 0xffu8 && bytes[1] == 0xfeu8
}

/// Detect the encoding from the first bytes of the file: the two-byte
/// little-endian marker means wide characters, anything else means UTF-8.
pub fn detect_encoding(prefix: &Vec<u8>) -> (r: Encoding)
    ensures
        r == (if has_bom(prefix@) {
            Encoding::Utf16le
        } else {
            Encoding::Utf8
        }),
{
    if prefix.len() >= 2 && prefix[0] == 0xff && prefix[1] == 0xfe {
        Encoding::Utf16le
    } else {
        Encoding::Utf8
    }
}

/// One UTF-16 code unit as two little-endian bytes.
pub open spec fn u16_le(u: int) -> Seq<u8> {
    seq![(u % 256) as u8, (u / 256 % 256) as u8]
}

/// UTF-16 little-endian encoding of one character: one code unit below
/// 0x10000, else a surrogate pair.
pub open spec fn encode_utf16le_char(c: char) -> Seq<u8> {
    if (c as u32) < 0x10000 {
        u16_le(c as u32 as int)
    } else {
        let v = c as u32 - 0x10000;
        u16_le(0xD800 + v / 0x400) + u16_le(0xDC00 + v % 0x400)
    }
}

/// UTF-16 little-endian encoding of a text.
pub open spec fn encode_utf16le(s: Seq<char>) -> Seq<u8>
    decreases s.len(),
{
    if s.len() == 0 {
        Seq::empty()
    } else {
        encode_utf16le_char(s[0]) + encode_utf16le(s.drop_first())
    }
}

/// Relies on `String::from_utf8_lossy`: bytes that are the UTF-8 encoding
/// of a text decode to exactly that text.
#[verifier::external_body]
fn decode_utf8_bytes(bytes: &Vec<u8>) -> (r: String)
    ensures
        forall|s: Seq<char>| encode_utf8(s) == bytes@ ==> r@ == s,
{
    String::from_utf8_lossy(bytes).into_owned()
}

/// Relies on `String::from_utf16_lossy` over little-endian code units:
/// bytes that are the UTF-16LE encoding of a text decode to exactly that
/// text.
#[verifier::external_body]
fn decode_utf16le_bytes(bytes: &Vec<u8>) -> (r: String)
    ensures
        forall|s: Seq<char>| encode_utf16le(s) == bytes@ ==> r@ == s,
{
    let units: Vec<u16> = bytes.chunks_exact(2).map(|c| u16::from_le_bytes([c[0], c[1]])).collect();
    String::from_utf16_lossy(&units)
}

/// A trailing run of `\r` removed, then the text split at each `\n`.
pub open spec fn trim_cr(s: Seq<char>) -> Seq<char>
    decreases s.len(),
{
    if s.len() > 0 && s.last() == '\r' {
        trim_cr(s.drop_last())
    } else {
        s
    }
}

/// The logical lines of a text: split at `\n`, each line's trailing `\r`
/// removed, no trailing empty line for text ending in `\n`.
pub open spec fn split_lines_spec(s: Seq<char>) -> Seq<Seq<char>>
    decreases s.len(),
{
    if s.len() == 0 {
        Seq::empty()
    } else {
        match find_sub_from(s, seq!['\n'], 0) {
            Some(i) => if 0 <= i < s.len() {
                seq![trim_cr(s.subrange(0, i))] + split_lines_spec(s.skip(i + 1))
            } else {
                seq![trim_cr(s)]
            },
            None => seq![trim_cr(s)],
        }
    }
}

/// Remove a trailing `\r` run, on character vectors.
fn trim_cr_chars(v: &Vec<char>) -> (r: Vec<char>)
    ensures
        r@ == trim_cr(v@),
{
    let n = v.len();
    proof {
        assert(v@.subrange(0, n as int) =~= v@);
    }
    let mut b: usize = n;
    while b > 0 && v[b - 1] == '\r'
        invariant
            b <= n,
            n == v.len(),
            trim_cr(v@) == trim_cr(v@.subrange(0, b as int)),
        decreases b,
    {
        assert(v@.subrange(0, b as int).drop_last() =~= v@.subrange(0, b - 1 as int));
        b -= 1;
    }
    assert(trim_cr(v@) == v@.subrange(0, b as int));
    subrange_copy(v, 0, b)
}

/// Split a text into logical lines, per [`split_lines_spec`].
pub fn split_lines(text: &str) -> (r: Vec<String>)
    ensures
        r@.map_values(|l: String| l@) == split_lines_spec(text@),
{
    let v = str_chars(text);
    let nl: Vec<char> = vec!['\n'];
    proof {
        assert(nl@ =~= seq!['\n']);
    }
    let mut out: Vec<String> = Vec::new();
    let mut i: usize = 0;
    let n = v.len();
    proof {
        assert(v@.skip(0) =~= v@);
        assert(out@.map_values(|l: String| l@) =~= Seq::<Seq<char>>::empty());
    }
    while i < n
        invariant
            n == v@.len(),
            i <= n,
            nl@ == seq!['\n'],
            v@ == text@,
            split_lines_spec(text@) == out@.map_values(|l: String| l@) + split_lines_spec(
                v@.skip(i as int),
            ),
        decreases n - i,
    {
        let ghost rest = v@.skip(i as int);
        match crate::text::find_sub_at(&v, &nl, i) {
            Some(j) => {
                proof {
                    lemma_find_sub_some(v@, nl@, i as int, j as int);
                    assert(find_sub_from(rest, seq!['\n'], 0) == Some(j - i)) by {
                        lemma_find_shift(v@, i as int, j as int);
                    }
                    assert(rest.subrange(0, j - i) =~= v@.subrange(i as int, j as int));
                    assert(rest.skip(j - i + 1) =~= v@.skip(j + 1 as int));
                }
                let line = trim_cr_chars(&subrange_copy(&v, i, j));
                let ghost out0 = out@;
                out.push(chars_to_string(&line));
                proof {
                    assert(out@.map_values(|l: String| l@) =~= out0.map_values(|l: String| l@)
                        + seq![trim_cr(rest.subrange(0, j - i))]);
                }
                i = j + 1;
            },
            None => {
                proof {
                    assert(find_sub_from(rest, seq!['\n'], 0) is None) by {
                        crate::text::lemma_find_sub_none(v@, nl@, i as int);
                        if find_sub_from(rest, seq!['\n'], 0) is Some {
                            let j = find_sub_from(rest, seq!['\n'], 0).unwrap();
                            lemma_find_sub_some(rest, seq!['\n'], 0, j);
                            assert(rest.subrange(j, j + 1) =~= v@.subrange(
                                i + j,
                                i + j + 1,
                            ));
                            assert(crate::text::is_match_at(v@, nl@, i + j));
                        }
                    }
                    assert(rest =~= v@.subrange(i as int, n as int));
                }
                let line = trim_cr_chars(&subrange_copy(&v, i, n));
                let ghost out0 = out@;
                out.push(chars_to_string(&line));
                proof {
                    assert(out@.map_values(|l: String| l@) =~= out0.map_values(|l: String| l@)
                        + seq![trim_cr(rest)]);
                    assert(v@.skip(n as int) =~= Seq::<char>::empty());
                }
                i = n;
            },
        }
    }
    proof {
        assert(v@.skip(n as int) =~= Seq::<char>::empty());
        assert(out@.map_values(|l: String| l@) + split_lines_spec(Seq::<char>::empty())
            =~= out@.map_values(|l: String| l@));
    }
    out
}

/// A found `\n` in the whole text is the first one of the suffix.
proof fn lemma_find_shift(s: Seq<char>, i: int, j: int)
    requires
        0 <= i <= j,
        find_sub_from(s, seq!['\n'], i) == Some(j),
    ensures
        find_sub_from(s.skip(i), seq!['\n'], 0) == Some(j - i),
{
    lemma_find_sub_some(s, seq!['\n'], i, j);
    let rest = s.skip(i);
    assert(rest.subrange(j - i, j - i + 1) =~= s.subrange(j, j + 1));
    assert(crate::text::is_match_at(rest, seq!['\n'], j - i));
    if find_sub_from(rest, seq!['\n'], 0) is None {
        crate::text::lemma_find_sub_none(rest, seq!['\n'], 0);
    } else {
        let j2 = find_sub_from(rest, seq!['\n'], 0).unwrap();
        lemma_find_sub_some(rest, seq!['\n'], 0, j2);
        if j2 < j - i {
            assert(rest.subrange(j2, j2 + 1) =~= s.subrange(i + j2, i + j2 + 1));
            assert(crate::text::is_match_at(s, seq!['\n'], i + j2));
        }
    }
}

/// What the decoded lines of a byte range are, by encoding: when the bytes
/// (after a leading marker, for wide text) are the encoding of a text, its
/// logical lines.
pub open spec fn lines_of(enc: Encoding, bytes: Seq<u8>, s: Seq<char>) -> bool {
    match enc {
        Encoding::Utf8 => encode_utf8(s) == bytes,
        Encoding::Utf16le => {
            let body = if has_bom(bytes) {
                bytes.skip(2)
            } else {
                bytes
            };
            encode_utf16le(s) == body
        },
    }
}

/// Decode newly read bytes into logical lines under the given encoding.
/// For any text the bytes encode, the result is exactly that text's lines —
/// so a marked wide file and a plain file with the same content yield the
/// same lines.
pub fn decode_lines(enc: Encoding, bytes: &Vec<u8>) -> (r: Vec<String>)
    ensures
        forall|s: Seq<char>|
            lines_of(enc, bytes@, s) ==> r@.map_values(|l: String| l@) == split_lines_spec(s),
{
    match enc {
        Encoding::Utf8 => {
            let text = decode_utf8_bytes(bytes);
            split_lines(text.as_str())
        },
        Encoding::Utf16le => {
            let body = if bytes.len() >= 2 && bytes[0] == 0xff && bytes[1] == 0xfe {
                subrange_copy_u8(bytes, 2, bytes.len())
            } else {
                subrange_copy_u8(bytes, 0, bytes.len())
            };
            proof {
                if !has_bom(bytes@) {
                    assert(body@ =~= bytes@);
                }
            }
            let text = decode_utf16le_bytes(&body);
            split_lines(text.as_str())
        },
    }
}

/// Copy of the bytes of `v` from `from` (inclusive) to `to` (exclusive).
fn subrange_copy_u8(v: &Vec<u8>, from: usize, to: usize) -> (r: Vec<u8>)
    requires
        from <= to <= v@.len(),
    ensures
        r@ == v@.subrange(from as int, to as int),
{
    let mut r: Vec<u8> = Vec::new();
    let mut i = from;
    while i < to
        invariant
            from <= i <= to <= v@.len(),
            r@ == v@.subrange(from as int, i as int),
        decreases to - i,
    {
        r.push(v[i]);
        assert(v@.subrange(from as int, i + 1 as int) =~= v@.subrange(from as int, i as int).push(
            v@[i as int],
        ));
        i += 1;
    }
    r
}

} // verus!
