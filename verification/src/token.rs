//! The task-token wire format: a tag byte marking a local-activity token,
//! followed by the token counter as a little-endian 32-bit integer.
//! Tokens are minted per attempt and are not stable across processes.

use vstd::bytes::lemma_auto_spec_u32_to_from_le_bytes;
use vstd::bytes::spec_u32_from_le_bytes;
use vstd::bytes::spec_u32_to_le_bytes;
use vstd::bytes::u32_from_le_bytes;
use vstd::bytes::u32_to_le_bytes;
use vstd::prelude::*;
use vstd::slice::slice_subrange;

verus! {

/// The discriminator that marks serialized local-activity tokens.
pub const LOCAL_ACTIVITY_TOKEN_TAG: u8 = 1;

/// The wire form of a token: the tag, then the counter little-endian.
pub open spec fn token_wire_v(token: u32) -> Seq<u8> {
    seq![LOCAL_ACTIVITY_TOKEN_TAG] + spec_u32_to_le_bytes(token)
}

/// Serialize a task token.
pub fn token_to_bytes(token: u32) -> (r: Vec<u8>)
    ensures
        r@ == token_wire_v(token),
        r@.len() == 5,
{
    let mut r: Vec<u8> = Vec::new();
    r.push(LOCAL_ACTIVITY_TOKEN_TAG);
    let mut le = u32_to_le_bytes(token);
    r.append(&mut le);
    proof {
        assert(r@ =~= token_wire_v(token));
    }
    r
}

/// Parse a task token: succeeds exactly on five bytes led by the
/// local-activity tag, and returns the counter they carry.
pub fn token_from_bytes(bytes: &[u8]) -> (r: Option<u32>)
    ensures
        r is Some <==> (bytes@.len() == 5 && bytes@[0] == LOCAL_ACTIVITY_TOKEN_TAG),
        r is Some ==> bytes@ == token_wire_v(r->0),
{
    if bytes.len() == 5 && *vstd::slice::slice_index_get(bytes, 0) == LOCAL_ACTIVITY_TOKEN_TAG {
        let tail = slice_subrange(bytes, 1, 5);
        let x = u32_from_le_bytes(tail);
        proof {
            lemma_auto_spec_u32_to_from_le_bytes();
            assert(bytes@ =~= token_wire_v(x));
        }
        Some(x)
    } else {
        None
    }
}

/// Serializing a token and parsing it back yields the token: the wire
/// form is five bytes, tagged, and carries the counter faithfully.
pub proof fn law_token_wire_round_trip(token: u32)
    ensures
        token_wire_v(token).len() == 5,
        token_wire_v(token)[0] == LOCAL_ACTIVITY_TOKEN_TAG,
        spec_u32_from_le_bytes(token_wire_v(token).subrange(1, 5)) == token,
{
    lemma_auto_spec_u32_to_from_le_bytes();
    assert(token_wire_v(token).subrange(1, 5) =~= spec_u32_to_le_bytes(token));
}

} // verus!
