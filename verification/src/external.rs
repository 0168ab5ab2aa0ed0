//! The calls into other crates. Verus does not read the bodies in this
//! file: it takes the contract of each function here on trust.

use vstd::prelude::*;
use parity_crypto::Keccak256;
use zeroize::Zeroize;

verus! {

/// The Keccak-256 digest of a byte string, as `keccak_hash::keccak` computes
/// it.
pub uninterp spec fn keccak_digest(data: Seq<u8>) -> Seq<u8>;

/// The Keccak-256 digest of a byte string, as the `keccak256` method of
/// `parity_crypto::Keccak256` computes it.
pub uninterp spec fn keccak256_digest(data: Seq<u8>) -> Seq<u8>;

/// The recoverable signature that the curve library makes for a digest
/// with a secret key: the 64 compact bytes of `(r, s)` and the recovery id.
/// There is none where the library refuses the 32 bytes as a secret key.
pub uninterp spec fn ecdsa_signature(secret: Seq<u8>, digest: Seq<u8>) -> Option<(Seq<u8>, u8)>;

/// The public key that the curve library recovers from a compact signature,
/// a recovery id and a digest, in its uncompressed form of 65 bytes. There
/// is none where the library refuses the signature or finds no key.
pub uninterp spec fn ecdsa_recovered_key(compact: Seq<u8>, recovery_id: u8, digest: Seq<u8>)
    -> Option<Seq<u8>>;

/// What `ethereum_types::H256` makes of a text: its 32 bytes, or the
/// debug rendering of its refusal.
pub uninterp spec fn h256_of_text(text: Seq<char>) -> Result<Seq<u8>, Seq<char>>;

/// The sixteen digits of lowercase hexadecimal.
pub open spec fn hex_digits() -> Seq<char> {
    seq!['0', '1', '2', '3', '4', '5', '6', '7', '8', '9', 'a', 'b', 'c', 'd', 'e', 'f']
}

/// A byte string in lowercase hexadecimal: two digits for each byte, the
/// high half first, and no prefix.
pub open spec fn hex_lower(data: Seq<u8>) -> Seq<char>
    decreases data.len(),
{
    if data.len() == 0 {
        Seq::empty()
    } else {
        hex_lower(data.drop_last()).push(hex_digits()[data.last() as int / 16]).push(
            hex_digits()[data.last() as int % 16],
        )
    }
}

/// `keccak_hash::keccak`: the result is the Keccak-256 digest of the input,
/// 32 bytes that depend on the input alone.
#[verifier::external_body]
pub(crate) fn keccak(data: &[u8]) -> (out: [u8; 32])
    ensures
        out@ == keccak_digest(data@),
{
    keccak_hash::keccak(data).0
}

/// `parity_crypto::Keccak256::keccak256`: the result is the Keccak-256
/// digest of the input, 32 bytes that depend on the input alone.
#[verifier::external_body]
pub(crate) fn keccak256(data: &[u8]) -> (out: [u8; 32])
    ensures
        out@ == keccak256_digest(data@),
{
    data.keccak256()
}

/// `secp256k1::ecdsa::RecoverableSignature::sign_ecdsa_recoverable`, on a
/// key made by `SecretKey::from_secret_bytes` and a message made by
/// `Message::from_digest`, its result taken apart by `serialize_compact`.
/// The nonce follows RFC 6979, so the result depends on the two inputs
/// alone. It is `None` exactly where the 32 bytes are no secret key.
#[verifier::external_body]
pub(crate) fn ecdsa_sign(secret: &[u8; 32], digest: &[u8; 32]) -> (r: Option<([u8; 64], u8)>)
    ensures
        match r {
            Some((compact, id)) => ecdsa_signature(secret@, digest@) == Some((compact@, id)),
            None => ecdsa_signature(secret@, digest@) is None,
        },
{
    let key = secp256k1::SecretKey::from_secret_bytes(*secret).ok()?;
    let message = secp256k1::Message::from_digest(*digest);
    let signed = secp256k1::ecdsa::RecoverableSignature::sign_ecdsa_recoverable(message, &key);
    let (id, compact) = signed.serialize_compact();
    Some((compact, id.to_u8()))
}

/// `secp256k1::ecdsa::RecoverableSignature::recover_ecdsa`, on a signature
/// made by `from_compact` and a message made by `Message::from_digest`, its
/// result written out by `serialize_uncompressed`. It is `None` where the
/// library refuses the signature or recovers no key.
#[verifier::external_body]
pub(crate) fn ecdsa_recover(compact: &[u8; 64], recovery_id: u8, digest: &[u8; 32]) -> (r: Option<
    [u8; 65],
>)
    requires
        recovery_id <= 3,
    ensures
        match r {
            Some(key) => ecdsa_recovered_key(compact@, recovery_id, digest@) == Some(key@),
            None => ecdsa_recovered_key(compact@, recovery_id, digest@) is None,
        },
{
    let id = secp256k1::ecdsa::RecoveryId::from_u8_masked(recovery_id);
    let signed = secp256k1::ecdsa::RecoverableSignature::from_compact(compact, id).ok()?;
    let key = signed.recover_ecdsa(secp256k1::Message::from_digest(*digest)).ok()?;
    Some(key.serialize_uncompressed())
}

/// `ethereum_types::H256::from_str`: the 32 bytes that the text stands
/// for, or the debug rendering of the refusal. Both depend on the text
/// alone.
#[verifier::external_body]
pub(crate) fn h256_from_text(text: &str) -> (r: Result<[u8; 32], String>)
    ensures
        match r {
            Ok(bytes) => h256_of_text(text@) == Ok::<Seq<u8>, Seq<char>>(bytes@),
            Err(detail) => h256_of_text(text@) == Err::<Seq<u8>, Seq<char>>(detail@),
        },
{
    match text.parse::<ethereum_types::H256>() {
        Ok(hash) => Ok(hash.0),
        Err(e) => Err(format!("{:?}", e)),
    }
}

/// `hex::encode`: two lowercase hexadecimal digits for each byte, in
/// order.
#[verifier::external_body]
pub(crate) fn hex_encode(data: &[u8]) -> (text: String)
    ensures
        text@ == hex_lower(data@),
{
    hex::encode(data)
}

/// `zeroize::Zeroize::zeroize` on an array of bytes: every byte is zero
/// afterwards. The call writes the bytes and does nothing else, so it
/// cannot unwind.
#[verifier::external_body]
pub(crate) fn wipe(bytes: &mut [u8; 32])
    ensures
        forall|i: int| 0 <= i < 32 ==> final(bytes)@[i] == 0,
    opens_invariants none
    no_unwind
{
    bytes.zeroize()
}

} // verus!
