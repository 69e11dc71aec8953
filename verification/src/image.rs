//! Inline images and clipboard transfer sent through escape sequences:
//! sixel graphics, iTerm2 inline images and OSC 52.

pub mod iterm2;
pub mod osc52;
pub mod sixel;

use vstd::prelude::*;
use base64::Engine;

verus! {

/// A decoded image ready for rendering.
pub struct TerminalImage {
    /// RGBA pixels, row-major.
    pub data: Vec<u8>,
    pub width: u32,
    pub height: u32,
    /// Absolute row position.
    pub row: usize,
    /// Column position.
    pub col: usize,
    /// Width in cells.
    pub cell_cols: usize,
    /// Height in cells.
    pub cell_rows: usize,
}

#[verifier::external_type_specification]
#[verifier::external_body]
pub struct ExDecodeError(base64::DecodeError);

/// The bytes that standard, padded base64 decoding gives for `input`,
/// `None` where it fails.
pub uninterp spec fn base64_decoded(input: Seq<u8>) -> Option<Seq<u8>>;

/// The standard, padded base64 text of `input`.
pub uninterp spec fn base64_encoded(input: Seq<u8>) -> Seq<u8>;

/// A byte of the standard base64 alphabet, or the padding `=`.
pub open spec fn is_b64_byte(b: u8) -> bool {
    (0x41 <= b <= 0x5A) || (0x61 <= b <= 0x7A) || (0x30 <= b <= 0x39) || b == 0x2B || b == 0x2F || b == 0x3D
}

/// The encoded length of `n` bytes fits in `usize` (base64's
/// `encoded_len` with padding).
pub open spec fn b64_len_fits(n: nat) -> bool {
    (n / 3) * 4 + (if n % 3 > 0 { 4int } else { 0 }) <= usize::MAX
}

/// `Engine::decode` of `general_purpose::STANDARD`: the decoded bytes, or
/// the decoder's error; which of them comes is left to `base64_decoded`,
/// except that a byte outside the standard alphabet and `=` is always an
/// error (`DecodeError::InvalidByte`).
#[verifier::external_body]
pub(crate) fn b64_decode(input: &[u8]) -> (r: Result<Vec<u8>, base64::DecodeError>)
    ensures
        match r {
            Ok(v) => base64_decoded(input@) == Some(v@),
            Err(_) => base64_decoded(input@) is None,
        },
        (exists|i: int| 0 <= i < input@.len() && !is_b64_byte(#[trigger] input@[i])) ==> r is Err,
{
    base64::engine::general_purpose::STANDARD.decode(input)
}

/// `Engine::encode` of `general_purpose::STANDARD`, as bytes. Its output
/// uses only the standard alphabet and `=` padding, and decoding it gives
/// the input back. It panics when the encoded length overflows `usize`.
#[verifier::external_body]
pub(crate) fn b64_encode(input: &[u8]) -> (r: Vec<u8>)
    requires
        b64_len_fits(input@.len()),
    ensures
        r@ == base64_encoded(input@),
        base64_decoded(r@) == Some(input@),
        forall|i: int| 0 <= i < r@.len() ==> is_b64_byte(#[trigger] r@[i]),
{
    base64::engine::general_purpose::STANDARD.encode(input).into_bytes()
}

} // verus!
