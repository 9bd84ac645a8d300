//! The calls into outside code that the receive path makes: brotli
//! decompression, JSON lookups (serde_json) and UTF-8 decoding (std).
//!
//! Each result is a function of the call's arguments alone; the contracts
//! name it, and the rest of the library is verified against those names.

use vstd::prelude::*;
use vstd::utf8::{decode_utf8, valid_utf8};

verus! {

/// What brotli decompression of `input` gives, read to the end through a
/// `brotli::Decompressor` with an input buffer of `buffer_size` bytes:
/// `Some(bytes)` when the stream decodes, `None` when the decoder reports an error.
pub uninterp spec fn brotli_decompressed(input: Seq<u8>, buffer_size: usize) -> Option<Seq<u8>>;

/// What `serde_json` finds in the text `text` at the JSON Pointer `pointer`:
/// `None` when `text` is not a JSON document; `Some(None)` when nothing stands at
/// `pointer` or what stands there is not a string; `Some(Some(s))` for the string `s`.
pub uninterp spec fn json_pointer_string(text: Seq<char>, pointer: Seq<char>) -> Option<Option<Seq<char>>>;

/// What `serde_json` finds in the text `text` at the JSON Pointer `pointer`:
/// `None` when `text` is not a JSON document; otherwise whether an array stands there.
pub uninterp spec fn json_pointer_is_array(text: Seq<char>, pointer: Seq<char>) -> Option<bool>;

/// What `serde_json` finds in the text `text` at the JSON Pointer `pointer`:
/// `None` when `text` is not a JSON document; `Some(None)` when nothing stands at
/// `pointer` or it is not a number that fits a `u64`; `Some(Some(n))` for the number `n`.
pub uninterp spec fn json_pointer_u64(text: Seq<char>, pointer: Seq<char>) -> Option<Option<u64>>;

/// The text that the bytes `bytes` encode in UTF-8, or `None` when they are not UTF-8.
pub open spec fn utf8_decoding(bytes: Seq<u8>) -> Option<Seq<char>> {
    if valid_utf8(bytes) {
        Some(decode_utf8(bytes))
    } else {
        None
    }
}

/// The bytes held by an optional buffer.
pub open spec fn opt_bytes(r: Option<Vec<u8>>) -> Option<Seq<u8>> {
    match r {
        Some(v) => Some(v@),
        None => None,
    }
}

/// The text held by an optional string.
pub open spec fn opt_text(r: Option<String>) -> Option<Seq<char>> {
    match r {
        Some(s) => Some(s@),
        None => None,
    }
}

/// The text held by a lookup result.
pub open spec fn lookup_text(r: Option<Option<String>>) -> Option<Option<Seq<char>>> {
    match r {
        Some(Some(s)) => Some(Some(s@)),
        Some(None) => Some(None),
        None => None,
    }
}

/// Decompresses `input` with `brotli::Decompressor::new(.., buffer_size)` and
/// `Read::read_to_end`. Trusted: the result is `brotli_decompressed(input, buffer_size)`;
/// what the decoder computes is not stated further.
#[verifier::external_body]
pub(crate) fn brotli_decompress(input: &[u8], buffer_size: usize) -> (r: Option<Vec<u8>>)
    ensures
        opt_bytes(r) == brotli_decompressed(input@, buffer_size),
{
    let mut decoded = Vec::new();
    let mut decompressor = brotli::Decompressor::new(std::io::Cursor::new(input), buffer_size);
    match std::io::Read::read_to_end(&mut decompressor, &mut decoded) {
        Ok(_) => Some(decoded),
        Err(_) => None,
    }
}

/// Parses `text` with `serde_json::from_str::<serde_json::Value>` and reads the
/// string at `pointer` with `Value::pointer` and `Value::as_str`. Trusted: the
/// result is `json_pointer_string(text, pointer)`; the JSON grammar is not stated.
/// `Value::pointer` reads a numeric token as an index in an array and as a member
/// name in an object.
#[verifier::external_body]
pub(crate) fn json_string_at(text: &str, pointer: &str) -> (r: Option<Option<String>>)
    ensures
        lookup_text(r) == json_pointer_string(text@, pointer@),
{
    match serde_json::from_str::<serde_json::Value>(text) {
        Ok(value) => Some(value.pointer(pointer).and_then(serde_json::Value::as_str).map(String::from)),
        Err(_) => None,
    }
}

/// Parses `text` with `serde_json::from_str::<serde_json::Value>` and reads the
/// number at `pointer` with `Value::pointer` and `Value::as_u64`. Trusted: the
/// result is `json_pointer_u64(text, pointer)`.
#[verifier::external_body]
pub(crate) fn json_u64_at(text: &str, pointer: &str) -> (r: Option<Option<u64>>)
    ensures
        r == json_pointer_u64(text@, pointer@),
{
    match serde_json::from_str::<serde_json::Value>(text) {
        Ok(value) => Some(value.pointer(pointer).and_then(serde_json::Value::as_u64)),
        Err(_) => None,
    }
}

/// Parses `text` with `serde_json::from_str::<serde_json::Value>` and tells with
/// `Value::pointer` and `Value::is_array` whether an array stands at `pointer`.
/// Trusted: the result is `json_pointer_is_array(text, pointer)`.
#[verifier::external_body]
pub(crate) fn json_is_array_at(text: &str, pointer: &str) -> (r: Option<bool>)
    ensures
        r == json_pointer_is_array(text@, pointer@),
{
    match serde_json::from_str::<serde_json::Value>(text) {
        Ok(value) => Some(value.pointer(pointer).map_or(false, serde_json::Value::is_array)),
        Err(_) => None,
    }
}

/// Decodes `bytes` with `String::from_utf8`. Trusted: the result is `Some`
/// exactly for valid UTF-8 (`vstd::utf8::valid_utf8`), and then holds the
/// characters that the bytes encode (`vstd::utf8::decode_utf8`).
#[verifier::external_body]
pub(crate) fn utf8_string(bytes: Vec<u8>) -> (r: Option<String>)
    ensures
        opt_text(r) == utf8_decoding(bytes@),
{
    String::from_utf8(bytes).ok()
}

} // verus!
