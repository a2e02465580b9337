//! What the library decides around the calls into the speech DLL: the bytes
//! it hands over and the error it reports.

use vstd::prelude::*;

use crate::RiamifyError;

verus! {

/// The bytes that `encoding_rs::SHIFT_JIS` encodes `s` to.
pub uninterp spec fn shift_jis_encode(s: Seq<char>) -> Seq<u8>;

/// `Encoding::encode` of `encoding_rs::SHIFT_JIS`, the bytes only. The
/// contract names the result; it claims nothing of the characters that
/// Shift_JIS cannot represent.
#[verifier::external_body]
fn encode_shift_jis(s: &str) -> (v: Vec<u8>)
    ensures
        v@ == shift_jis_encode(s@),
{
    encoding_rs::SHIFT_JIS.encode(s).0.into_owned()
}

/// `b` with a 0 byte at its end, unless it already ends with one.
pub open spec fn null_terminated(b: Seq<u8>) -> Seq<u8> {
    if b.len() > 0 && b.last() == 0 {
        b
    } else {
        b.push(0)
    }
}

/// The message as the DLL takes it: Shift_JIS, ending with a 0 byte.
pub fn encode_message(message: &str) -> (v: Vec<u8>)
    ensures
        v@ == null_terminated(shift_jis_encode(message@)),
        v@.len() > 0,
        v@.last() == 0,
{
    let mut v = encode_shift_jis(message);
    if v.len() == 0 || v[v.len() - 1] != 0 {
        v.push(0);
    }
    v
}

/// The error that the DLL reports with `code` when it returns no waveform.
pub fn synthesis_error(code: i32) -> (e: RiamifyError)
    ensures
        e is OutOfMemory <==> code == 101,
        e is UndefinedSymbol <==> (code == 102 || code == 105),
        e is NegativeProsody <==> code == 103,
        e is InvalidTag <==> code == 106,
        e is TooLongTag <==> code == 107,
        e is InvalidTagNumber <==> code == 108,
        e is NoData <==> code == 111,
        e is TooLong <==> code == 200,
        e is TooLongPhrase <==> code == 201,
        e is Overflow <==> (code == 202 || code == 204),
        e is LowHeapMemory <==> code == 203,
        e is Other <==> !(code == 101 || code == 102 || code == 103 || code == 105 || code == 106
            || code == 107 || code == 108 || code == 111 || code == 200 || code == 201 || code
            == 202 || code == 203 || code == 204),
{
    match code {
        101 => RiamifyError::OutOfMemory,
        102 | 105 => RiamifyError::UndefinedSymbol,
        103 => RiamifyError::NegativeProsody,
        106 => RiamifyError::InvalidTag,
        107 => RiamifyError::TooLongTag,
        108 => RiamifyError::InvalidTagNumber,
        111 => RiamifyError::NoData,
        200 => RiamifyError::TooLong,
        201 => RiamifyError::TooLongPhrase,
        202 | 204 => RiamifyError::Overflow,
        203 => RiamifyError::LowHeapMemory,
        _ => RiamifyError::Other,
    }
}

} // verus!
