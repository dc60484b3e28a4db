//! Percent-encoding of display names, so that any name can stand in the
//! fragment of a link.

use vstd::prelude::*;
use vstd::utf8::{decode_utf8, encode_utf8, encode_utf8_decode_utf8, is_ascii_chars,
    is_ascii_chars_encode_utf8};

verus! {

/// Whether the byte `b` is an ASCII letter or digit. These are the only
/// bytes that stand for themselves in an encoded name.
pub open spec fn is_alphanumeric(b: u8) -> bool {
    (0x30 <= b <= 0x39) || (0x41 <= b <= 0x5a) || (0x61 <= b <= 0x7a)
}

/// The upper-case hexadecimal digit for `n`, as an ASCII byte.
pub open spec fn hex_digit(n: int) -> u8
    recommends
        0 <= n < 16,
{
    if n < 10 {
        (0x30 + n) as u8
    } else {
        (0x41 + n - 10) as u8
    }
}

/// The ASCII bytes that stand for the byte `b` in an encoded name: `b`
/// itself if it is a letter or digit, else `%` and its two upper-case
/// hexadecimal digits.
pub open spec fn escape_byte(b: u8) -> Seq<u8> {
    if is_alphanumeric(b) {
        seq![b]
    } else {
        seq![0x25u8, hex_digit(b as int / 16), hex_digit(b as int % 16)]
    }
}

/// The ASCII bytes that stand for `bytes` in an encoded name: each byte
/// escaped in turn.
pub open spec fn escape_bytes(bytes: Seq<u8>) -> Seq<u8>
    decreases bytes.len(),
{
    if bytes.len() == 0 {
        Seq::empty()
    } else {
        escape_byte(bytes[0]) + escape_bytes(bytes.drop_first())
    }
}

/// The text whose characters are the ASCII bytes `bytes`.
pub open spec fn ascii_text(bytes: Seq<u8>) -> Seq<char> {
    Seq::new(bytes.len(), |i: int| bytes[i] as char)
}

/// The percent-encoding of `text`: every byte of its UTF-8 form that is not
/// an ASCII letter or digit is written as `%` and two upper-case hexadecimal
/// digits, every other byte as itself.
pub open spec fn percent_encode(text: Seq<char>) -> Seq<char> {
    ascii_text(escape_bytes(encode_utf8(text)))
}

/// Whether the byte `b` is a hexadecimal digit in ASCII, of either case.
pub open spec fn is_hex_digit(b: u8) -> bool {
    (0x30 <= b <= 0x39) || (0x41 <= b <= 0x46) || (0x61 <= b <= 0x66)
}

/// The number that the hexadecimal digit `b` stands for.
pub open spec fn hex_value(b: u8) -> int
    recommends
        is_hex_digit(b),
{
    if b <= 0x39 {
        b - 0x30
    } else if b <= 0x46 {
        b - 0x41 + 10
    } else {
        b - 0x61 + 10
    }
}

/// Percent-decoding of bytes: each `%` that two hexadecimal digits follow
/// stands for the byte they denote; every other byte stands for itself.
pub open spec fn unescape_bytes(bytes: Seq<u8>) -> Seq<u8>
    decreases bytes.len(),
{
    if bytes.len() == 0 {
        Seq::empty()
    } else if bytes[0] == 0x25 && bytes.len() >= 3 && is_hex_digit(bytes[1]) && is_hex_digit(
        bytes[2],
    ) {
        seq![(16 * hex_value(bytes[1]) + hex_value(bytes[2])) as u8] + unescape_bytes(
            bytes.skip(3),
        )
    } else {
        seq![bytes[0]] + unescape_bytes(bytes.skip(1))
    }
}

/// The text that percent-decoding recovers from `text`: the UTF-8 reading of
/// its percent-decoded bytes.
pub open spec fn percent_decode(text: Seq<char>) -> Seq<char> {
    decode_utf8(unescape_bytes(encode_utf8(text)))
}

/// Every byte of an escaped sequence is an ASCII letter, digit or `%`.
pub proof fn lemma_escape_bytes_alphabet(bytes: Seq<u8>)
    ensures
        forall|i: int|
            0 <= i < escape_bytes(bytes).len() ==> {
                let b = #[trigger] escape_bytes(bytes)[i];
                is_alphanumeric(b) || b == 0x25
            },
    decreases bytes.len(),
{
    if bytes.len() > 0 {
        lemma_escape_bytes_alphabet(bytes.drop_first());
        let head = escape_byte(bytes[0]);
        let tail = escape_bytes(bytes.drop_first());
        assert forall|i: int| 0 <= i < escape_bytes(bytes).len() implies {
            let b = #[trigger] escape_bytes(bytes)[i];
            is_alphanumeric(b) || b == 0x25
        } by {
            if i >= head.len() {
                assert(escape_bytes(bytes)[i] == tail[i - head.len()]);
            }
        }
    }
}

/// Unescaping undoes escaping, byte for byte.
pub proof fn lemma_unescape_escape(bytes: Seq<u8>)
    ensures
        unescape_bytes(escape_bytes(bytes)) == bytes,
    decreases bytes.len(),
{
    if bytes.len() > 0 {
        let b = bytes[0];
        let tail = escape_bytes(bytes.drop_first());
        let all = escape_bytes(bytes);
        lemma_unescape_escape(bytes.drop_first());
        if is_alphanumeric(b) {
            assert(all.skip(1) =~= tail);
        } else {
            let hi = hex_digit(b as int / 16);
            let lo = hex_digit(b as int % 16);
            assert(all[0] == 0x25 && all[1] == hi && all[2] == lo);
            assert(all.skip(3) =~= tail);
            assert(16 * hex_value(hi) + hex_value(lo) == b);
        }
        assert(seq![b] + bytes.drop_first() =~= bytes);
    }
}

/// An encoded name holds ASCII letters, digits and `%` only. In particular
/// it holds none of the characters that delimit the parts of a link.
pub proof fn lemma_percent_encode_alphabet(text: Seq<char>)
    ensures
        is_ascii_chars(percent_encode(text)),
        forall|i: int|
            0 <= i < percent_encode(text).len() ==> {
                let c = #[trigger] percent_encode(text)[i];
                ('0' <= c <= '9') || ('A' <= c <= 'Z') || ('a' <= c <= 'z') || c == '%'
            },
{
    lemma_escape_bytes_alphabet(encode_utf8(text));
    let escaped = escape_bytes(encode_utf8(text));
    assert forall|i: int| 0 <= i < percent_encode(text).len() implies {
        let c = #[trigger] percent_encode(text)[i];
        ('0' <= c <= '9') || ('A' <= c <= 'Z') || ('a' <= c <= 'z') || c == '%'
    } by {
        let b = escaped[i];
        assert(is_alphanumeric(b) || b == 0x25);
    }
}

/// Percent-decoding an encoded text recovers the text exactly, whatever
/// characters it holds.
pub proof fn lemma_percent_round_trip(text: Seq<char>)
    ensures
        percent_decode(percent_encode(text)) == text,
{
    let escaped = escape_bytes(encode_utf8(text));
    let encoded = percent_encode(text);
    lemma_percent_encode_alphabet(text);
    lemma_escape_bytes_alphabet(encode_utf8(text));
    is_ascii_chars_encode_utf8(encoded);
    assert(encode_utf8(encoded) =~= escaped) by {
        assert forall|i: int| 0 <= i < escaped.len() implies encode_utf8(encoded)[i]
            == escaped[i] by {
            let b = escaped[i];
            assert(is_alphanumeric(b) || b == 0x25);
            assert(encoded[i] == b as char);
            assert(encoded[i] as u8 == encode_utf8(encoded)[i]);
        }
    }
    lemma_unescape_escape(encode_utf8(text));
    encode_utf8_decode_utf8(text);
}

/// Percent-encodes a display name.
///
/// Calls `percent_encoding::utf8_percent_encode` with the set
/// `NON_ALPHANUMERIC` and collects what it yields. The contract states what
/// that function produces for this set: the bytes of the name's UTF-8 form,
/// ASCII letters and digits kept, every other byte replaced by `%` and its
/// two upper-case hexadecimal digits. Verus takes this on trust.
#[verifier::external_body]
pub(crate) fn encode_name(name: &str) -> (r: String)
    ensures
        r@ == percent_encode(name@),
{
    percent_encoding::utf8_percent_encode(name, percent_encoding::NON_ALPHANUMERIC).to_string()
}

} // verus!
