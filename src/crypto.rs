//! Hashing, signature and identity primitives, each resting on an outside crate.

use vstd::prelude::*;

use sha2::Digest;
use sp_core::Pair;

verus! {

/// The lower-case hex text of the SHA-256 digest of the UTF-8 bytes of `s`.
pub uninterp spec fn sha256_hex(s: Seq<char>) -> Seq<char>;

/// Whether `sig` is a valid recoverable ECDSA signature of `msg` by the compressed key `pk`.
pub uninterp spec fn ecdsa_verifies(sig: Seq<u8>, msg: Seq<char>, pk: Seq<u8>) -> bool;

/// The SS58 text form, in the Substrate account format, of a compressed ECDSA public key.
pub uninterp spec fn ss58_text(pk: Seq<u8>) -> Seq<char>;

/// The base58 peer id derived from a protobuf-encoded network public key, if it decodes.
pub uninterp spec fn peer_id_text(public: Seq<u8>) -> Option<Seq<char>>;

pub open spec fn is_lower_hex_digit(c: char) -> bool {
    ('0' <= c && c <= '9') || ('a' <= c && c <= 'f')
}

/// Relies on sha2::Sha256 and the `{:x}` formatting of its 32-byte digest:
/// the result depends on the text alone and is 64 lower-case hex digits.
#[verifier::external_body]
pub fn create_hash(data: &str) -> (r: String)
    ensures
        r@ == sha256_hex(data@),
        r@.len() == 64,
        forall|i: int| 0 <= i < r@.len() ==> is_lower_hex_digit(#[trigger] r@[i]),
{
    let mut hasher = sha2::Sha256::new();
    hasher.update(data);
    format!("{:x}", hasher.finalize())
}

/// Relies on sp_core::ecdsa::Pair::verify: recovers the signer of `msg` and
/// compares it with `pk`; it returns false rather than failing.
#[verifier::external_body]
pub(crate) fn verify_signature(sig: &[u8; 65], msg: &str, pk: &[u8; 33]) -> (r: bool)
    ensures
        r == ecdsa_verifies(sig@, msg@, pk@),
{
    sp_core::ecdsa::Pair::verify(
        &sp_core::ecdsa::Signature::from_raw(*sig),
        msg,
        &sp_core::ecdsa::Public::from_raw(*pk),
    )
}

/// Relies on sp_core's Ss58Codec::to_ss58check_with_version, given the fixed
/// Substrate account format rather than the process-wide default.
#[verifier::external_body]
pub(crate) fn public_key_text(pk: &[u8; 33]) -> (r: String)
    ensures
        r@ == ss58_text(pk@),
{
    sp_core::crypto::Ss58Codec::to_ss58check_with_version(
        &sp_core::ecdsa::Public::from_raw(*pk),
        sp_core::crypto::Ss58AddressFormatRegistry::SubstrateAccount.into(),
    )
}

/// Relies on libp2p's PublicKey::try_decode_protobuf and PeerId::from_public_key:
/// `None` when the bytes do not decode as a public key.
#[verifier::external_body]
pub(crate) fn peer_id_of_public_key(public: &Vec<u8>) -> (r: Option<String>)
    ensures
        r matches Some(s) ==> peer_id_text(public@) == Some(s@),
        r is None ==> peer_id_text(public@) is None,
{
    match libp2p::identity::PublicKey::try_decode_protobuf(public.as_slice()) {
        Ok(key) => Some(libp2p::PeerId::from_public_key(&key).to_string()),
        Err(_) => None,
    }
}

} // verus!
