//! The single-byte codecs used for PDF string operands: the declared font
//! encodings that resolve to a supported codec (WinAnsi as windows-1252,
//! MacRoman), and the Latin-1-compatible fallback.
//!
//! Decoding never hard-fails: undecodable bytes are dropped rather than
//! aborting, and the Latin-1 fallback maps every byte to the character with
//! the same code point.  Encoding drops what the codec cannot represent.

use vstd::prelude::*;

verus! {

/// Every byte decoded as the character with the same code point.
pub open spec fn latin1_decode(bytes: Seq<u8>) -> Seq<char> {
    bytes.map_values(|b: u8| b as char)
}

/// Whether a character fits in a single Latin-1 byte.
pub open spec fn latin1_encodable(c: char) -> bool {
    c as u32 <= 255
}

/// The encodable characters kept as their byte, the rest dropped.
pub open spec fn latin1_encode(chars: Seq<char>) -> Seq<u8> {
    chars.filter(|c: char| latin1_encodable(c)).map_values(|c: char| c as u8)
}

/// Relies on `encoding`'s `ISO_8859_1.decode` with `DecoderTrap::Ignore`:
/// the single-byte codec maps every byte, ASCII directly and the rest
/// through the identity index, to the character with the same code point,
/// and never fails.
#[verifier::external_body]
pub fn latin1_decode_bytes(bytes: &Vec<u8>) -> (r: String)
    ensures
        r@ == latin1_decode(bytes@),
{
    encoding::Encoding::decode(
        encoding::all::ISO_8859_1,
        bytes,
        encoding::DecoderTrap::Ignore,
    ).unwrap()
}

/// Relies on `encoding`'s `ISO_8859_1.encode` with `EncoderTrap::Ignore`:
/// characters up to U+00FF become the byte with the same code point, the
/// rest are skipped by the trap, and the call never fails.
#[verifier::external_body]
pub fn latin1_encode_str(s: &String) -> (r: Vec<u8>)
    ensures
        r@ == latin1_encode(s@),
{
    encoding::Encoding::encode(encoding::all::ISO_8859_1, s, encoding::EncoderTrap::Ignore).unwrap()
}

/// What `WINDOWS_1252.decode` with `DecoderTrap::Ignore` returns: a function
/// of the bytes alone.
pub uninterp spec fn winansi_decode(bytes: Seq<u8>) -> Seq<char>;

/// What `WINDOWS_1252.encode` with `EncoderTrap::Ignore` returns: a function
/// of the characters alone.
pub uninterp spec fn winansi_encode(chars: Seq<char>) -> Seq<u8>;

/// What `MAC_ROMAN.decode` with `DecoderTrap::Ignore` returns: a function of
/// the bytes alone.
pub uninterp spec fn macroman_decode(bytes: Seq<u8>) -> Seq<char>;

/// What `MAC_ROMAN.encode` with `EncoderTrap::Ignore` returns: a function of
/// the characters alone.
pub uninterp spec fn macroman_encode(chars: Seq<char>) -> Seq<u8>;

/// Relies on `encoding`'s `WINDOWS_1252.decode` with `DecoderTrap::Ignore`:
/// the single-byte table decode depends on the bytes alone, the trap skips
/// undecodable bytes, and the call never fails.
#[verifier::external_body]
pub fn winansi_decode_bytes(bytes: &Vec<u8>) -> (r: String)
    ensures
        r@ == winansi_decode(bytes@),
{
    encoding::Encoding::decode(
        encoding::all::WINDOWS_1252,
        bytes,
        encoding::DecoderTrap::Ignore,
    ).unwrap()
}

/// Relies on `encoding`'s `WINDOWS_1252.encode` with `EncoderTrap::Ignore`:
/// the single-byte table encode depends on the characters alone, the trap
/// skips unrepresentable ones, and the call never fails.
#[verifier::external_body]
pub fn winansi_encode_str(s: &String) -> (r: Vec<u8>)
    ensures
        r@ == winansi_encode(s@),
{
    encoding::Encoding::encode(encoding::all::WINDOWS_1252, s, encoding::EncoderTrap::Ignore)
        .unwrap()
}

/// Relies on `encoding`'s `MAC_ROMAN.decode` with `DecoderTrap::Ignore`:
/// the single-byte table decode depends on the bytes alone, the trap skips
/// undecodable bytes, and the call never fails.
#[verifier::external_body]
pub fn macroman_decode_bytes(bytes: &Vec<u8>) -> (r: String)
    ensures
        r@ == macroman_decode(bytes@),
{
    encoding::Encoding::decode(
        encoding::all::MAC_ROMAN,
        bytes,
        encoding::DecoderTrap::Ignore,
    ).unwrap()
}

/// Relies on `encoding`'s `MAC_ROMAN.encode` with `EncoderTrap::Ignore`:
/// the single-byte table encode depends on the characters alone, the trap
/// skips unrepresentable ones, and the call never fails.
#[verifier::external_body]
pub fn macroman_encode_str(s: &String) -> (r: Vec<u8>)
    ensures
        r@ == macroman_encode(s@),
{
    encoding::Encoding::encode(encoding::all::MAC_ROMAN, s, encoding::EncoderTrap::Ignore)
        .unwrap()
}

/// The codecs a declared font encoding can select; anything unresolvable
/// falls back to the Latin-1-compatible codec.
#[derive(Clone, Copy, Debug, PartialEq, Eq, Structural)]
pub enum PdfCodec {
    /// The Latin-1-compatible fallback.
    Latin1,
    /// WinAnsiEncoding, decoded as windows-1252.
    WinAnsi,
    /// MacRomanEncoding.
    MacRoman,
}

/// The text a codec decodes string bytes to.
pub open spec fn codec_decode(c: PdfCodec, bytes: Seq<u8>) -> Seq<char> {
    match c {
        PdfCodec::Latin1 => latin1_decode(bytes),
        PdfCodec::WinAnsi => winansi_decode(bytes),
        PdfCodec::MacRoman => macroman_decode(bytes),
    }
}

/// The bytes a codec encodes text back to.
pub open spec fn codec_encode(c: PdfCodec, chars: Seq<char>) -> Seq<u8> {
    match c {
        PdfCodec::Latin1 => latin1_encode(chars),
        PdfCodec::WinAnsi => winansi_encode(chars),
        PdfCodec::MacRoman => macroman_encode(chars),
    }
}

/// Decodes string bytes under the given codec; never fails.
pub fn decode_with_codec(c: PdfCodec, bytes: &Vec<u8>) -> (r: String)
    ensures
        r@ == codec_decode(c, bytes@),
{
    match c {
        PdfCodec::Latin1 => latin1_decode_bytes(bytes),
        PdfCodec::WinAnsi => winansi_decode_bytes(bytes),
        PdfCodec::MacRoman => macroman_decode_bytes(bytes),
    }
}

/// Re-encodes text with the same codec it was decoded with; never fails.
pub fn encode_with_codec(c: PdfCodec, s: &String) -> (r: Vec<u8>)
    ensures
        r@ == codec_encode(c, s@),
{
    match c {
        PdfCodec::Latin1 => latin1_encode_str(s),
        PdfCodec::WinAnsi => winansi_encode_str(s),
        PdfCodec::MacRoman => macroman_encode_str(s),
    }
}

} // verus!
