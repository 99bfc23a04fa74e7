//! Payload codec for byte-string payloads.
//!
//! The dispatch core delegates per-member payload coding. A member's
//! payload is modeled by its encoded byte string, so structural decoding
//! checks the member's declared minimum encoded length and keeps the
//! bytes, encoding appends them, and the encoded size is their count.

use vstd::prelude::*;

use crate::errors::DispatchError;
use crate::member::MemberDescriptor;
use crate::selector::clone_bytes;

verus! {

/// Whether `data` decodes structurally as a payload of member `m`: it
/// holds at least the member's minimum encoded payload length.
pub open spec fn payload_decodable(m: MemberDescriptor, data: Seq<u8>) -> bool {
    data.len() >= m.min_payload_len
}

/// Decode member `m`'s payload from raw bytes.
///
/// `validate` asks for semantic validation beyond the structural check;
/// this codec adds none, so it accepts the same data either way.
pub fn payload_decode_raw(m: &MemberDescriptor, data: &Vec<u8>, validate: bool) -> (r: Result<
    Vec<u8>,
    DispatchError,
>)
    ensures
        r is Ok <==> payload_decodable(*m, data@),
        r matches Ok(p) ==> p@ == data@,
        r matches Err(e) ==> e matches DispatchError::PayloadTooShort { needed, got }
            && needed == m.min_payload_len && got == data@.len(),
{
    if data.len() < m.min_payload_len {
        return Err(DispatchError::PayloadTooShort { needed: m.min_payload_len, got: data.len() });
    }
    Ok(clone_bytes(data))
}

/// Number of bytes the payload occupies when encoded.
pub fn payload_encoded_size(payload: &Vec<u8>) -> (r: usize)
    ensures
        r == payload@.len(),
{
    payload.len()
}

/// Append the payload's encoding to `out`. Never fails.
pub fn payload_encode_raw(payload: &Vec<u8>, out: &mut Vec<u8>)
    ensures
        final(out)@ == old(out)@ + payload@,
{
    out.extend_from_slice(payload.as_slice());
    proof {
        assert(out@ =~= old(out)@ + payload@);
    }
}

} // verus!
