//! Secret keys, recoverable signatures over a digest, and the address of a
//! public key.

use vstd::prelude::*;
use crate::action::Address;
use crate::error::{CurveError, Error};
use crate::external::{
    ecdsa_recover, ecdsa_recovered_key, ecdsa_sign, ecdsa_signature, h256_from_text,
    h256_of_text, keccak256, keccak256_digest, wipe,
};
use crate::uint::be_value;

verus! {

/// A digest of 32 bytes: the only thing that is ever signed.
pub type Message = [u8; 32];

/// An uncompressed public key without its prefix byte: 64 bytes.
pub type Public = [u8; 64];

/// The holder of the 32 bytes of a private key. The bytes are overwritten
/// with zeros when the value is dropped.
pub struct Secret {
    inner: [u8; 32],
}

impl View for Secret {
    type V = Seq<u8>;

    closed spec fn view(&self) -> Seq<u8> {
        self.inner@
    }
}

impl Drop for Secret {
    /// Overwrites the bytes of the key with zeros as the value leaves its
    /// scope.
    fn drop(&mut self)
        ensures
            final(self)@ == Seq::new(32, |i: int| 0u8),
        opens_invariants none
        no_unwind
    {
        wipe(&mut self.inner);
        proof {
            assert(self.inner@ =~= Seq::new(32, |i: int| 0u8));
        }
    }
}

impl Secret {
    /// Takes 32 bytes as a secret key.
    pub fn from(k: [u8; 32]) -> (secret: Secret)
        ensures
            secret@ == k@,
    {
        Secret { inner: k }
    }

    /// The 32 bytes of the key.
    pub fn as_bytes(&self) -> (bytes: &[u8; 32])
        ensures
            bytes@ == self@,
    {
        &self.inner
    }

    /// Overwrites the bytes of the key with zeros.
    pub fn wipe(&mut self)
        ensures
            final(self)@ == Seq::new(32, |i: int| 0u8),
    {
        wipe(&mut self.inner);
        proof {
            assert(self.inner@ =~= Seq::new(32, |i: int| 0u8));
        }
    }

    /// Makes a key of the result of reading a text as 32 bytes.
    pub fn from_read(read: Result<[u8; 32], String>) -> (r: Result<Secret, Error>)
        ensures
            match r {
                Ok(secret) => read matches Ok(bytes) && secret@ == bytes@,
                Err(e) => read matches Err(detail) && e == Error::Custom(detail),
            },
    {
        match read {
            Ok(bytes) => Ok(Secret::from(bytes)),
            Err(detail) => Err(Error::Custom(detail)),
        }
    }

    /// Parses a key from hexadecimal text.
    pub fn from_str(s: &str) -> (r: Result<Secret, Error>)
        ensures
            match r {
                Ok(secret) => h256_of_text(s@) == Ok::<Seq<u8>, Seq<char>>(secret@),
                Err(e) => e matches Error::Custom(detail) && h256_of_text(s@) == Err::<
                    Seq<u8>,
                    Seq<char>,
                >(detail@),
            },
    {
        Secret::from_read(h256_from_text(s))
    }
}

impl core::str::FromStr for Secret {
    type Err = Error;

    /// Parses a key from hexadecimal text: the key of the 32 bytes that
    /// the text stands for, or the refusal of the text as a custom error.
    fn from_str(s: &str) -> (r: Result<Secret, Error>)
        ensures
            match r {
                Ok(secret) => h256_of_text(s@) == Ok::<Seq<u8>, Seq<char>>(secret@),
                Err(e) => e matches Error::Custom(detail) && h256_of_text(s@) == Err::<
                    Seq<u8>,
                    Seq<char>,
                >(detail@),
            },
    {
        Secret::from_read(h256_from_text(s))
    }
}

/// A recoverable signature: `r` in the first 32 bytes, `s` in the next 32,
/// both big-endian, and the recovery id in the last byte.
pub struct Signature(pub(crate) [u8; 65]);

impl View for Signature {
    type V = Seq<u8>;

    closed spec fn view(&self) -> Seq<u8> {
        self.0@
    }
}

/// Half the order of the curve's group, rounded down, as 32 big-endian
/// bytes:
/// `7fffffffffffffffffffffffffffffff5d576e7357a4501ddfe92f46681b20a0`.
pub open spec fn half_order_digits() -> Seq<u8> {
    seq![
        0x7fu8, 0xff, 0xff, 0xff, 0xff, 0xff, 0xff, 0xff,
        0xff, 0xff, 0xff, 0xff, 0xff, 0xff, 0xff, 0xff,
        0x5d, 0x57, 0x6e, 0x73, 0x57, 0xa4, 0x50, 0x1d,
        0xdf, 0xe9, 0x2f, 0x46, 0x68, 0x1b, 0x20, 0xa0,
    ]
}

/// Whether `s` has 32 bytes and is, as a big-endian number, at most half
/// the order of the curve's group.
pub open spec fn is_low(s: Seq<u8>) -> bool {
    s.len() == 32 && be_value(s) <= be_value(half_order_digits())
}

/// Of two byte strings of one length that agree up to a place where the
/// first holds the smaller byte, the first stands for the smaller number.
pub proof fn lemma_first_difference_decides(a: Seq<u8>, b: Seq<u8>, i: int)
    requires
        a.len() == b.len(),
        0 <= i < a.len(),
        a.take(i) == b.take(i),
        a[i] < b[i],
    ensures
        be_value(a) < be_value(b),
    decreases a.len(),
{
    let a_head = a.drop_last();
    let b_head = b.drop_last();
    if i == a.len() - 1 {
        assert(a_head =~= a.take(i));
        assert(b_head =~= b.take(i));
    } else {
        assert(a_head.take(i) =~= a.take(i));
        assert(b_head.take(i) =~= b.take(i));
        lemma_first_difference_decides(a_head, b_head, i);
    }
}

/// Whether `s` has 32 bytes and is, as a big-endian number, at most half
/// the order of the curve's group.
pub fn is_low_s(s: &[u8]) -> (low: bool)
    ensures
        low == is_low(s@),
{
    if s.len() != 32 {
        return false;
    }
    let half: [u8; 32] = [
        0x7f, 0xff, 0xff, 0xff, 0xff, 0xff, 0xff, 0xff,
        0xff, 0xff, 0xff, 0xff, 0xff, 0xff, 0xff, 0xff,
        0x5d, 0x57, 0x6e, 0x73, 0x57, 0xa4, 0x50, 0x1d,
        0xdf, 0xe9, 0x2f, 0x46, 0x68, 0x1b, 0x20, 0xa0,
    ];
    proof {
        assert(half@ =~= half_order_digits());
    }
    let mut i: usize = 0;
    while i < 32
        invariant
            i <= 32,
            s@.len() == 32,
            half@ == half_order_digits(),
            s@.take(i as int) == half@.take(i as int),
        decreases 32 - i,
    {
        if s[i] < half[i] {
            proof {
                lemma_first_difference_decides(s@, half@, i as int);
            }
            return true;
        }
        if s[i] > half[i] {
            proof {
                lemma_first_difference_decides(half@, s@, i as int);
            }
            return false;
        }
        proof {
            assert(s@.take(i + 1) =~= s@.take(i as int).push(s@[i as int]));
            assert(half@.take(i + 1) =~= half@.take(i as int).push(half@[i as int]));
        }
        i = i + 1;
    }
    proof {
        assert(s@.take(32) =~= s@);
        assert(half@.take(32) =~= half@);
    }
    true
}

impl Signature {
    /// The 32 bytes of `r`.
    pub fn r(&self) -> (out: &[u8])
        ensures
            out@ == self@.subrange(0, 32),
    {
        vstd::slice::slice_subrange(self.0.as_slice(), 0, 32)
    }

    /// The 32 bytes of `s`.
    pub fn s(&self) -> (out: &[u8])
        ensures
            out@ == self@.subrange(32, 64),
    {
        vstd::slice::slice_subrange(self.0.as_slice(), 32, 64)
    }

    /// The recovery id.
    pub fn v(&self) -> (out: u8)
        ensures
            out == self@[64],
    {
        self.0[64]
    }

    /// The 65 bytes of the signature.
    pub fn as_bytes(&self) -> (out: &[u8; 65])
        ensures
            out@ == self@,
            self@.len() == 65,
    {
        &self.0
    }

    /// The signature with the given parts.
    pub fn from_rsv(r: &[u8; 32], s: &[u8; 32], v: u8) -> (sig: Signature)
        ensures
            sig@ == r@ + s@ + seq![v],
    {
        let mut bytes = [0u8; 65];
        let mut i: usize = 0;
        while i < 32
            invariant
                i <= 32,
                forall|j: int| 0 <= j < i ==> bytes@[j] == r@[j],
                forall|j: int| 0 <= j < i ==> bytes@[32 + j] == s@[j],
            decreases 32 - i,
        {
            bytes[i] = r[i];
            bytes[32 + i] = s[i];
            i = i + 1;
        }
        bytes[64] = v;
        proof {
            assert(bytes@ =~= r@ + s@ + seq![v]);
        }
        Signature(bytes)
    }
}

/// What the curve library returned from signing, as a mathematical value.
pub open spec fn signed_view(signed: Option<([u8; 64], u8)>) -> Option<(Seq<u8>, u8)> {
    match signed {
        None => None,
        Some((compact, id)) => Some((compact@, id)),
    }
}

/// What signing gives, for each result of the curve library: the 65 bytes
/// of the signature where the library signed, the recovery id is 0 or 1
/// and `s` is in its lower half; `InvalidSecret` where the library refused
/// the key; `InvalidSignature` otherwise.
pub open spec fn signed_outcome(signed: Option<(Seq<u8>, u8)>) -> Result<Seq<u8>, Error> {
    match signed {
        None => Err(Error::InvalidSecret),
        Some((compact, id)) => {
            if id > 1 || !is_low(compact.subrange(32, 64)) {
                Err(Error::InvalidSignature)
            } else {
                Ok(compact.push(id))
            }
        },
    }
}

/// Makes the signature of what the curve library returned. Accepts only a
/// recovery id of 0 or 1 and an `s` in its lower half.
pub fn signature_of_signed(signed: Option<([u8; 64], u8)>) -> (r: Result<Signature, Error>)
    ensures
        match r {
            Ok(sig) => signed_outcome(signed_view(signed)) == Ok::<Seq<u8>, Error>(sig@),
            Err(e) => signed_outcome(signed_view(signed)) == Err::<Seq<u8>, Error>(e),
        },
{
    match signed {
        None => Err(Error::from(CurveError::InvalidSecretKey)),
        Some((compact, id)) => {
            if id > 1 {
                return Err(Error::from(CurveError::InvalidRecoveryId));
            }
            let s = vstd::slice::slice_subrange(compact.as_slice(), 32, 64);
            if !is_low_s(s) {
                return Err(Error::from(CurveError::InvalidSignature));
            }
            let mut bytes = [0u8; 65];
            let mut i: usize = 0;
            while i < 64
                invariant
                    i <= 64,
                    forall|j: int| 0 <= j < i ==> bytes@[j] == compact@[j],
                decreases 64 - i,
            {
                bytes[i] = compact[i];
                i = i + 1;
            }
            bytes[64] = id;
            proof {
                assert(bytes@ =~= compact@.push(id));
            }
            Ok(Signature(bytes))
        },
    }
}

/// Signs a digest with a secret key.
pub fn sign(secret: &Secret, message: &Message) -> (r: Result<Signature, Error>)
    ensures
        match r {
            Ok(sig) => signed_outcome(ecdsa_signature(secret@, message@)) == Ok::<Seq<u8>, Error>(
                sig@,
            ),
            Err(e) => signed_outcome(ecdsa_signature(secret@, message@)) == Err::<Seq<u8>, Error>(
                e,
            ),
        },
        r matches Ok(sig) ==> sig@.len() == 65 && sig@[64] <= 1 && is_low(sig@.subrange(32, 64)),
{
    let r = signature_of_signed(ecdsa_sign(secret.as_bytes(), message));
    proof {
        if r is Ok {
            let (compact, id) = ecdsa_signature(secret@, message@)->Some_0;
            assert(compact.push(id).subrange(32, 64) =~= compact.subrange(32, 64));
        }
    }
    r
}

/// What the curve library returned from recovering, as a mathematical
/// value.
pub open spec fn recovered_view(key: Option<[u8; 65]>) -> Option<Seq<u8>> {
    match key {
        None => None,
        Some(key) => Some(key@),
    }
}

/// What recovering gives, for each result of the curve library: the 64
/// bytes behind the prefix byte of the key that the library recovered, and
/// `InvalidSignature` where it recovered none.
pub open spec fn recovered_outcome(key: Option<Seq<u8>>) -> Result<Seq<u8>, Error> {
    match key {
        None => Err(Error::InvalidSignature),
        Some(key) => Ok(key.subrange(1, 65)),
    }
}

/// What recovering the signer of a digest gives: `InvalidSignature` for a
/// recovery id above 3, and else what follows from the curve library's
/// result.
pub open spec fn recover_outcome(signature: Seq<u8>, message: Seq<u8>) -> Result<Seq<u8>, Error> {
    if signature[64] > 3 {
        Err(Error::InvalidSignature)
    } else {
        recovered_outcome(ecdsa_recovered_key(signature.subrange(0, 64), signature[64], message))
    }
}

/// Makes the public key of what the curve library recovered.
pub fn public_of_recovered(key: Option<[u8; 65]>) -> (r: Result<Public, Error>)
    ensures
        match r {
            Ok(public) => recovered_outcome(recovered_view(key)) == Ok::<Seq<u8>, Error>(public@),
            Err(e) => recovered_outcome(recovered_view(key)) == Err::<Seq<u8>, Error>(e),
        },
{
    match key {
        None => Err(Error::from(CurveError::InvalidSignature)),
        Some(k) => {
            let mut public: Public = [0u8; 64];
            let mut i: usize = 0;
            while i < 64
                invariant
                    i <= 64,
                    forall|j: int| 0 <= j < i ==> public@[j] == k@[j + 1],
                decreases 64 - i,
            {
                public[i] = k[i + 1];
                i = i + 1;
            }
            proof {
                assert(public@ =~= k@.subrange(1, 65));
            }
            Ok(public)
        },
    }
}

/// Recovers the public key of the signer of a digest. Every failure is
/// `InvalidSignature`.
pub fn recover(signature: &Signature, message: &Message) -> (r: Result<Public, Error>)
    ensures
        match r {
            Ok(public) => recover_outcome(signature@, message@) == Ok::<Seq<u8>, Error>(public@),
            Err(e) => recover_outcome(signature@, message@) == Err::<Seq<u8>, Error>(e),
        },
        r matches Err(e) ==> e == Error::InvalidSignature,
{
    let id = signature.0[64];
    if id > 3 {
        return Err(Error::from(CurveError::InvalidRecoveryId));
    }
    let mut compact = [0u8; 64];
    let mut i: usize = 0;
    while i < 64
        invariant
            i <= 64,
            forall|j: int| 0 <= j < i ==> compact@[j] == signature.0@[j],
        decreases 64 - i,
    {
        compact[i] = signature.0[i];
        i = i + 1;
    }
    proof {
        assert(compact@ =~= signature@.subrange(0, 64));
    }
    public_of_recovered(ecdsa_recover(&compact, id, message))
}

/// The address of a digest of a public key: its last 20 bytes, with the
/// upper half of the first of them set to 1, the mark of an account of a
/// user.
pub open spec fn address_of_digest(digest: Seq<u8>) -> Seq<u8> {
    digest.subrange(12, 32).update(0, (digest[12] & 0x0f) | 0x10)
}

/// The address of a public key.
pub open spec fn address_of_public(public: Seq<u8>) -> Seq<u8> {
    address_of_digest(keccak256_digest(public))
}

/// Makes the address of the digest of a public key.
pub fn address_from_digest(digest: &[u8; 32]) -> (address: Address)
    ensures
        address@ == address_of_digest(digest@),
        address@[0] & 0xf0 == 0x10,
{
    let mut address: Address = [0u8; 20];
    let mut i: usize = 0;
    while i < 20
        invariant
            i <= 20,
            forall|j: int| 0 <= j < i ==> address@[j] == digest@[j + 12],
        decreases 20 - i,
    {
        address[i] = digest[i + 12];
        i = i + 1;
    }
    let first: u8 = address[0];
    let tagged: u8 = (first & 0x0f) | 0x10;
    assert(tagged & 0xf0 == 0x10) by (bit_vector)
        requires
            tagged == (first & 0x0f) | 0x10,
    ;
    address[0] = tagged;
    proof {
        assert(address@ =~= address_of_digest(digest@));
    }
    address
}

/// The address of a public key: the last 20 bytes of its digest, marked as
/// the account of a user.
pub fn public_to_address(public: &Public) -> (address: Address)
    ensures
        address@ == address_of_public(public@),
        address@[0] & 0xf0 == 0x10,
{
    let digest = keccak256(public.as_slice());
    address_from_digest(&digest)
}

} // verus!
