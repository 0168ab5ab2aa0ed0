//! The unsigned transaction, its canonical encoding and digest, and the
//! signed envelope.
//!
//! The canonical encoding of a transaction is the list of its nine fields,
//! in the order in which the structure declares them; the order is part of
//! the format. The signed envelope is the list of the same nine fields
//! followed by `v`, `r` and `s`.

use vstd::prelude::*;
use vstd::slice::slice_subrange;
use crate::action::{lemma_action_view_injective, Action, ActionView};
use crate::codec::{
    copy_bytes, decode_list, encode_list, encoded_list, encoded_strings,
    lemma_encoded_strings_cover, lemma_list_canonical, lemma_list_round_trip, list_outcome,
    views,
};
use crate::error::{DecoderError, Error};
use crate::external::{ecdsa_signature, hex_encode, hex_lower, keccak, keccak_digest};
use crate::signature::{
    recover, recover_outcome, sign, signed_outcome, Message, Public, Secret, Signature,
};
use crate::uint::{
    be_value, lemma_pad_of_trim, lemma_pow256_widths, lemma_trim_is_minimal, lemma_u256_bound,
    lemma_u256_view_injective, lemma_uint_canonical, lemma_uint_round_trip, lemma_value_of_pad, minimal_be,
    minimal_be_u64, pad, u32_from_minimal_be, u64_from_minimal_be, u8_from_minimal_be,
    uint_outcome, U256,
};

verus! {

/// An unsigned transaction.
#[derive(Debug, Clone, PartialEq, Eq)]
pub struct Transaction {
    /// The number of the transaction among those of its sender.
    pub nonce: U256,
    /// The price of one unit of gas.
    pub gas_price: U256,
    /// The budget of the execution.
    pub gas: U256,
    /// What the transaction does.
    pub action: Action,
    /// The amount that is transferred.
    pub value: U256,
    /// The limit of storage that the execution may take.
    pub storage_limit: u64,
    /// The epoch that bounds the validity of the transaction.
    pub epoch_height: u64,
    /// The chain that the transaction is meant for.
    pub chain_id: u32,
    /// The payload of the call.
    pub data: Vec<u8>,
}

/// A transaction as a mathematical value.
pub struct TransactionView {
    pub nonce: nat,
    pub gas_price: nat,
    pub gas: nat,
    pub action: ActionView,
    pub value: nat,
    pub storage_limit: u64,
    pub epoch_height: u64,
    pub chain_id: u32,
    pub data: Seq<u8>,
}

impl View for Transaction {
    type V = TransactionView;

    open spec fn view(&self) -> TransactionView {
        TransactionView {
            nonce: self.nonce@,
            gas_price: self.gas_price@,
            gas: self.gas@,
            action: self.action@,
            value: self.value@,
            storage_limit: self.storage_limit,
            epoch_height: self.epoch_height,
            chain_id: self.chain_id,
            data: self.data@,
        }
    }
}

/// The error of reading an unsigned integer, if there is one.
pub open spec fn uint_error(bytes: Seq<u8>, width: nat) -> Option<DecoderError> {
    match uint_outcome(bytes, width) {
        Ok(_) => None,
        Err(e) => Some(e),
    }
}

impl TransactionView {
    /// The nine fields as byte strings, in the order of the format:
    /// integers in their minimal big-endian form, the action as its
    /// address or as the empty string, the payload as it is.
    pub open spec fn fields(self) -> Seq<Seq<u8>> {
        seq![
            minimal_be(self.nonce),
            minimal_be(self.gas_price),
            minimal_be(self.gas),
            self.action.field(),
            minimal_be(self.value),
            minimal_be(self.storage_limit as nat),
            minimal_be(self.epoch_height as nat),
            minimal_be(self.chain_id as nat),
            self.data,
        ]
    }

    /// The canonical encoding: the list of the nine fields.
    pub open spec fn encoding(self) -> Seq<u8> {
        encoded_list(self.fields())
    }

    /// The first error among the nine fields, in their order, if one of
    /// them does not stand for a value of its type.
    pub open spec fn fields_error(items: Seq<Seq<u8>>) -> Option<DecoderError> {
        if items.len() != 9 {
            Some(DecoderError::RlpIncorrectListLen)
        } else if uint_error(items[0], 32) is Some {
            uint_error(items[0], 32)
        } else if uint_error(items[1], 32) is Some {
            uint_error(items[1], 32)
        } else if uint_error(items[2], 32) is Some {
            uint_error(items[2], 32)
        } else if ActionView::of_field(items[3]) is Err {
            Some(ActionView::of_field(items[3])->Err_0)
        } else if uint_error(items[4], 32) is Some {
            uint_error(items[4], 32)
        } else if uint_error(items[5], 8) is Some {
            uint_error(items[5], 8)
        } else if uint_error(items[6], 8) is Some {
            uint_error(items[6], 8)
        } else {
            uint_error(items[7], 4)
        }
    }

    /// The transaction that nine fields stand for.
    pub open spec fn of_fields(items: Seq<Seq<u8>>) -> Result<TransactionView, DecoderError> {
        match TransactionView::fields_error(items) {
            Some(e) => Err(e),
            None => Ok(
                TransactionView {
                    nonce: uint_outcome(items[0], 32)->Ok_0,
                    gas_price: uint_outcome(items[1], 32)->Ok_0,
                    gas: uint_outcome(items[2], 32)->Ok_0,
                    action: ActionView::of_field(items[3])->Ok_0,
                    value: uint_outcome(items[4], 32)->Ok_0,
                    storage_limit: uint_outcome(items[5], 8)->Ok_0 as u64,
                    epoch_height: uint_outcome(items[6], 8)->Ok_0 as u64,
                    chain_id: uint_outcome(items[7], 4)->Ok_0 as u32,
                    data: items[8],
                },
            ),
        }
    }

    /// What decoding a transaction from the whole input gives.
    pub open spec fn decoded(bytes: Seq<u8>) -> Result<TransactionView, DecoderError> {
        match list_outcome(bytes) {
            Err(e) => Err(e),
            Ok(items) => TransactionView::of_fields(items),
        }
    }

    /// The transaction whose numbers are zero, whose payload is empty and
    /// that creates a contract.
    pub open spec fn empty() -> TransactionView {
        TransactionView {
            nonce: 0,
            gas_price: 0,
            gas: 0,
            action: ActionView::Create,
            value: 0,
            storage_limit: 0,
            epoch_height: 0,
            chain_id: 0,
            data: Seq::empty(),
        }
    }

    /// The digest of the transaction: that of its canonical encoding.
    pub open spec fn digest(self) -> Seq<u8> {
        keccak_digest(self.encoding())
    }
}

impl Default for Transaction {
    /// The transaction whose numbers are zero, whose payload is empty and
    /// that creates a contract.
    fn default() -> (tx: Transaction)
        ensures
            tx@ == TransactionView::empty(),
    {
        Transaction {
            nonce: U256::zero(),
            gas_price: U256::zero(),
            gas: U256::zero(),
            action: Action::Create,
            value: U256::zero(),
            storage_limit: 0,
            epoch_height: 0,
            chain_id: 0,
            data: Vec::new(),
        }
    }
}

impl Transaction {
    /// The nine fields as byte strings, in the order of the format.
    pub fn to_fields(&self) -> (items: Vec<Vec<u8>>)
        ensures
            views(items@) == self@.fields(),
    {
        let mut items: Vec<Vec<u8>> = Vec::new();
        items.push(self.nonce.to_minimal_be());
        items.push(self.gas_price.to_minimal_be());
        items.push(self.gas.to_minimal_be());
        items.push(self.action.to_field());
        items.push(self.value.to_minimal_be());
        items.push(minimal_be_u64(self.storage_limit));
        items.push(minimal_be_u64(self.epoch_height));
        items.push(minimal_be_u64(self.chain_id as u64));
        items.push(copy_bytes(self.data.as_slice()));
        proof {
            assert(views(items@) =~= self@.fields());
        }
        items
    }

    /// The transaction that nine fields stand for.
    pub fn from_fields(items: &[Vec<u8>]) -> (r: Result<Transaction, DecoderError>)
        ensures
            match r {
                Ok(tx) => TransactionView::of_fields(views(items@)) == Ok::<
                    TransactionView,
                    DecoderError,
                >(tx@),
                Err(e) => TransactionView::of_fields(views(items@)) == Err::<
                    TransactionView,
                    DecoderError,
                >(e),
            },
    {
        if items.len() != 9 {
            return Err(DecoderError::RlpIncorrectListLen);
        }
        let nonce = match U256::from_minimal_be(items[0].as_slice()) {
            Ok(x) => x,
            Err(e) => {
                return Err(e);
            },
        };
        let gas_price = match U256::from_minimal_be(items[1].as_slice()) {
            Ok(x) => x,
            Err(e) => {
                return Err(e);
            },
        };
        let gas = match U256::from_minimal_be(items[2].as_slice()) {
            Ok(x) => x,
            Err(e) => {
                return Err(e);
            },
        };
        let action = match Action::from_field(items[3].as_slice()) {
            Ok(x) => x,
            Err(e) => {
                return Err(e);
            },
        };
        let value = match U256::from_minimal_be(items[4].as_slice()) {
            Ok(x) => x,
            Err(e) => {
                return Err(e);
            },
        };
        let storage_limit = match u64_from_minimal_be(items[5].as_slice()) {
            Ok(x) => x,
            Err(e) => {
                return Err(e);
            },
        };
        let epoch_height = match u64_from_minimal_be(items[6].as_slice()) {
            Ok(x) => x,
            Err(e) => {
                return Err(e);
            },
        };
        let chain_id = match u32_from_minimal_be(items[7].as_slice()) {
            Ok(x) => x,
            Err(e) => {
                return Err(e);
            },
        };
        let data = copy_bytes(items[8].as_slice());
        Ok(
            Transaction {
                nonce,
                gas_price,
                gas,
                action,
                value,
                storage_limit,
                epoch_height,
                chain_id,
                data,
            },
        )
    }

    /// The canonical encoding of the transaction.
    pub fn rlp_bytes(&self) -> (out: Vec<u8>)
        ensures
            out@ == self@.encoding(),
    {
        let items = self.to_fields();
        encode_list(&items)
    }

    /// Decodes a transaction from its canonical encoding.
    pub fn decode(bytes: &[u8]) -> (r: Result<Transaction, DecoderError>)
        ensures
            match r {
                Ok(tx) => TransactionView::decoded(bytes@) == Ok::<TransactionView, DecoderError>(
                    tx@,
                ),
                Err(e) => TransactionView::decoded(bytes@) == Err::<TransactionView, DecoderError>(
                    e,
                ),
            },
    {
        match decode_list(bytes) {
            Err(e) => Err(e),
            Ok(items) => Transaction::from_fields(items.as_slice()),
        }
    }

    /// The digest of the transaction: that of its canonical encoding, and
    /// so a function of the values of the fields alone.
    pub fn hash(&self) -> (digest: Message)
        ensures
            digest@ == self@.digest(),
    {
        let bytes = self.rlp_bytes();
        keccak(bytes.as_slice())
    }

    /// Signs the digest of the transaction and puts the signature beside
    /// it. Fails where signing the digest fails.
    pub fn sign(self, secret: &Secret) -> (r: Result<TransactionWithSignature, Error>)
        ensures
            match r {
                Ok(signed) => signed.unsigned == self && signed_outcome(
                    ecdsa_signature(secret@, self@.digest()),
                ) == Ok::<Seq<u8>, Error>(signed@.signature()) && signed.v <= 1,
                Err(e) => signed_outcome(ecdsa_signature(secret@, self@.digest())) == Err::<
                    Seq<u8>,
                    Error,
                >(e),
            },
    {
        let digest = self.hash();
        match sign(secret, &digest) {
            Err(e) => Err(e),
            Ok(sig) => Ok(TransactionWithSignature::new(self, &sig)),
        }
    }
}

/// A transaction with the signature of its digest.
#[derive(Debug, Clone, PartialEq, Eq)]
pub struct TransactionWithSignature {
    /// The transaction that was signed.
    pub unsigned: Transaction,
    /// The recovery id.
    pub v: u8,
    /// The first half of the signature.
    pub r: U256,
    /// The second half of the signature.
    pub s: U256,
}

/// A signed transaction as a mathematical value. `r` and `s` are held as
/// their 32 big-endian bytes.
pub struct TransactionWithSignatureView {
    pub unsigned: TransactionView,
    pub v: u8,
    pub r: Seq<u8>,
    pub s: Seq<u8>,
}

impl View for TransactionWithSignature {
    type V = TransactionWithSignatureView;

    open spec fn view(&self) -> TransactionWithSignatureView {
        TransactionWithSignatureView {
            unsigned: self.unsigned@,
            v: self.v,
            r: self.r.0@,
            s: self.s.0@,
        }
    }
}

impl TransactionWithSignatureView {
    /// The 65 bytes of the signature: `r` and `s`, each as 32 bytes, and
    /// `v`.
    pub open spec fn signature(self) -> Seq<u8> {
        self.r + self.s + seq![self.v]
    }

    /// The twelve fields of the envelope: the nine of the transaction,
    /// then `v`, `r` and `s` as integers.
    pub open spec fn fields(self) -> Seq<Seq<u8>> {
        self.unsigned.fields() + seq![
            minimal_be(self.v as nat),
            minimal_be(be_value(self.r)),
            minimal_be(be_value(self.s)),
        ]
    }

    /// The wire form of the envelope: the list of its twelve fields.
    pub open spec fn encoding(self) -> Seq<u8> {
        encoded_list(self.fields())
    }

    /// The envelope that twelve fields stand for.
    pub open spec fn of_fields(items: Seq<Seq<u8>>) -> Result<
        TransactionWithSignatureView,
        DecoderError,
    > {
        if items.len() != 12 {
            Err(DecoderError::RlpIncorrectListLen)
        } else {
            match TransactionView::of_fields(items.take(9)) {
                Err(e) => Err(e),
                Ok(unsigned) => {
                    if uint_error(items[9], 1) is Some {
                        Err(uint_error(items[9], 1)->Some_0)
                    } else if uint_error(items[10], 32) is Some {
                        Err(uint_error(items[10], 32)->Some_0)
                    } else if uint_error(items[11], 32) is Some {
                        Err(uint_error(items[11], 32)->Some_0)
                    } else {
                        Ok(
                            TransactionWithSignatureView {
                                unsigned,
                                v: uint_outcome(items[9], 1)->Ok_0 as u8,
                                r: pad(items[10], 32),
                                s: pad(items[11], 32),
                            },
                        )
                    }
                },
            }
        }
    }

    /// What decoding an envelope from the whole input gives.
    pub open spec fn decoded(bytes: Seq<u8>) -> Result<
        TransactionWithSignatureView,
        DecoderError,
    > {
        match list_outcome(bytes) {
            Err(e) => Err(e),
            Ok(items) => TransactionWithSignatureView::of_fields(items),
        }
    }
}

impl TransactionWithSignature {
    /// Puts a signature beside the transaction that it signs.
    pub fn new(unsigned: Transaction, sig: &Signature) -> (signed: TransactionWithSignature)
        ensures
            signed.unsigned == unsigned,
            signed@.signature() == sig@,
    {
        let bytes = sig.as_bytes();
        let mut r = [0u8; 32];
        let mut s = [0u8; 32];
        let mut i: usize = 0;
        while i < 32
            invariant
                i <= 32,
                bytes@.len() == 65,
                forall|j: int| 0 <= j < i ==> r@[j] == bytes@[j],
                forall|j: int| 0 <= j < i ==> s@[j] == bytes@[32 + j],
            decreases 32 - i,
        {
            r[i] = bytes[i];
            s[i] = bytes[32 + i];
            i = i + 1;
        }
        let signed = TransactionWithSignature {
            unsigned,
            v: bytes[64],
            r: U256::from_big_endian(&r),
            s: U256::from_big_endian(&s),
        };
        proof {
            assert(signed@.signature() =~= sig@);
        }
        signed
    }

    /// The signature: `r` and `s`, each zero-padded to 32 big-endian
    /// bytes, and `v`.
    pub fn signature(&self) -> (sig: Signature)
        ensures
            sig@ == self@.signature(),
    {
        let r = self.r.to_big_endian();
        let s = self.s.to_big_endian();
        Signature::from_rsv(&r, &s, self.v)
    }

    /// Recovers the public key of the signer from the signature and the
    /// digest of the unsigned transaction.
    pub fn recover_public(&self) -> (r: Result<Public, Error>)
        ensures
            match r {
                Ok(public) => recover_outcome(self@.signature(), self@.unsigned.digest()) == Ok::<
                    Seq<u8>,
                    Error,
                >(public@),
                Err(e) => recover_outcome(self@.signature(), self@.unsigned.digest()) == Err::<
                    Seq<u8>,
                    Error,
                >(e),
            },
            r matches Err(e) ==> e == Error::InvalidSignature,
    {
        let digest = self.unsigned.hash();
        recover(&self.signature(), &digest)
    }

    /// The wire form of the envelope.
    pub fn rlp_bytes(&self) -> (out: Vec<u8>)
        ensures
            out@ == self@.encoding(),
    {
        let mut items = self.unsigned.to_fields();
        items.push(minimal_be_u64(self.v as u64));
        items.push(self.r.to_minimal_be());
        items.push(self.s.to_minimal_be());
        proof {
            assert(views(items@) =~= self@.fields());
        }
        encode_list(&items)
    }

    /// Decodes an envelope from its wire form.
    pub fn decode(bytes: &[u8]) -> (r: Result<TransactionWithSignature, DecoderError>)
        ensures
            match r {
                Ok(signed) => TransactionWithSignatureView::decoded(bytes@) == Ok::<
                    TransactionWithSignatureView,
                    DecoderError,
                >(signed@),
                Err(e) => TransactionWithSignatureView::decoded(bytes@) == Err::<
                    TransactionWithSignatureView,
                    DecoderError,
                >(e),
            },
    {
        let items = match decode_list(bytes) {
            Ok(items) => items,
            Err(e) => {
                return Err(e);
            },
        };
        if items.len() != 12 {
            return Err(DecoderError::RlpIncorrectListLen);
        }
        let head = slice_subrange(items.as_slice(), 0, 9);
        proof {
            assert(views(head@) =~= views(items@).take(9));
        }
        let unsigned = match Transaction::from_fields(head) {
            Ok(tx) => tx,
            Err(e) => {
                return Err(e);
            },
        };
        let v = match u8_from_minimal_be(items[9].as_slice()) {
            Ok(x) => x,
            Err(e) => {
                return Err(e);
            },
        };
        let r = match U256::from_minimal_be(items[10].as_slice()) {
            Ok(x) => x,
            Err(e) => {
                return Err(e);
            },
        };
        let s = match U256::from_minimal_be(items[11].as_slice()) {
            Ok(x) => x,
            Err(e) => {
                return Err(e);
            },
        };
        Ok(TransactionWithSignature { unsigned, v, r, s })
    }

    /// The wire form of the envelope in lowercase hexadecimal, without a
    /// prefix.
    pub fn into_hex_string(&self) -> (text: String)
        ensures
            text@ == hex_lower(self@.encoding()),
    {
        let bytes = self.rlp_bytes();
        hex_encode(bytes.as_slice())
    }
}

/// The nine fields of a transaction read back as the transaction.
pub proof fn lemma_fields_round_trip(tx: Transaction)
    ensures
        TransactionView::of_fields(tx@.fields()) == Ok::<TransactionView, DecoderError>(tx@),
{
    lemma_pow256_widths();
    lemma_u256_bound(tx.nonce);
    lemma_u256_bound(tx.gas_price);
    lemma_u256_bound(tx.gas);
    lemma_u256_bound(tx.value);
    lemma_uint_round_trip(tx.storage_limit as nat, 8);
    lemma_uint_round_trip(tx.epoch_height as nat, 8);
    lemma_uint_round_trip(tx.chain_id as nat, 4);
}

/// Nine fields that stand for a transaction are the fields of that
/// transaction.
pub proof fn lemma_fields_canonical(items: Seq<Seq<u8>>)
    requires
        TransactionView::of_fields(items) is Ok,
    ensures
        TransactionView::of_fields(items)->Ok_0.fields() == items,
{
    lemma_pow256_widths();
    lemma_uint_canonical(items[0], 32);
    lemma_uint_canonical(items[1], 32);
    lemma_uint_canonical(items[2], 32);
    lemma_uint_canonical(items[4], 32);
    lemma_uint_canonical(items[5], 8);
    lemma_uint_canonical(items[6], 8);
    lemma_uint_canonical(items[7], 4);
    let tx = TransactionView::of_fields(items)->Ok_0;
    assert(tx.action.field() =~= items[3]);
    assert(tx.fields() =~= items);
}

/// The fields of a transaction whose encoding fits in 64 bits of length
/// fit as well.
pub proof fn lemma_fields_fit(tx: Transaction)
    requires
        tx@.encoding().len() <= u64::MAX,
    ensures
        encoded_strings(tx@.fields()).len() <= u64::MAX,
        forall|i: int| 0 <= i < tx@.fields().len() ==> (#[trigger] tx@.fields()[i]).len() <= u64::MAX,
{
    let fields = tx@.fields();
    assert forall|i: int| 0 <= i < fields.len() implies (#[trigger] fields[i]).len()
        <= u64::MAX by {
        lemma_encoded_strings_cover(fields, i);
    }
}

/// Decoding the canonical encoding of a transaction gives the transaction
/// back.
pub proof fn lemma_transaction_round_trip(tx: Transaction)
    requires
        tx@.encoding().len() <= u64::MAX,
    ensures
        TransactionView::decoded(tx@.encoding()) == Ok::<TransactionView, DecoderError>(tx@),
{
    lemma_fields_fit(tx);
    lemma_list_round_trip(tx@.fields());
    lemma_fields_round_trip(tx);
}

/// Nothing but the canonical encoding of a transaction decodes to it.
pub proof fn lemma_transaction_canonical(bytes: Seq<u8>)
    requires
        TransactionView::decoded(bytes) is Ok,
    ensures
        TransactionView::decoded(bytes)->Ok_0.encoding() == bytes,
{
    lemma_list_canonical(bytes);
    lemma_fields_canonical(list_outcome(bytes)->Ok_0);
}

/// Two transactions with the same values in their fields have the same
/// digest.
pub proof fn lemma_digest_is_function_of_fields(a: Transaction, b: Transaction)
    requires
        a@ == b@,
    ensures
        a@.encoding() == b@.encoding(),
        a@.digest() == b@.digest(),
{
}

/// Two transactions that differ in the value of a field differ in their
/// canonical encoding, which is what the digest is taken of.
pub proof fn lemma_encoding_injective(a: Transaction, b: Transaction)
    requires
        a@.encoding().len() <= u64::MAX,
        b@.encoding().len() <= u64::MAX,
        a@ != b@,
    ensures
        a@.encoding() != b@.encoding(),
{
    lemma_transaction_round_trip(a);
    lemma_transaction_round_trip(b);
}

/// Decoding the wire form of an envelope gives the envelope back.
pub proof fn lemma_envelope_round_trip(signed: TransactionWithSignature)
    requires
        signed@.encoding().len() <= u64::MAX,
    ensures
        TransactionWithSignatureView::decoded(signed@.encoding()) == Ok::<
            TransactionWithSignatureView,
            DecoderError,
        >(signed@),
{
    let fields = signed@.fields();
    assert forall|i: int| 0 <= i < fields.len() implies (#[trigger] fields[i]).len()
        <= u64::MAX by {
        lemma_encoded_strings_cover(fields, i);
    }
    lemma_list_round_trip(fields);
    assert(fields.take(9) =~= signed@.unsigned.fields());
    lemma_fields_round_trip(signed.unsigned);
    lemma_pow256_widths();
    lemma_uint_round_trip(signed.v as nat, 1);
    lemma_u256_bound(signed.r);
    lemma_u256_bound(signed.s);
    lemma_trim_is_minimal(signed.r.0@);
    lemma_trim_is_minimal(signed.s.0@);
    lemma_pad_of_trim(signed.r.0@);
    lemma_pad_of_trim(signed.s.0@);
}

/// Nothing but the wire form of an envelope decodes to it.
pub proof fn lemma_envelope_canonical(bytes: Seq<u8>)
    requires
        TransactionWithSignatureView::decoded(bytes) is Ok,
    ensures
        TransactionWithSignatureView::decoded(bytes)->Ok_0.encoding() == bytes,
{
    lemma_list_canonical(bytes);
    let items = list_outcome(bytes)->Ok_0;
    let signed = TransactionWithSignatureView::of_fields(items)->Ok_0;
    lemma_fields_canonical(items.take(9));
    lemma_pow256_widths();
    lemma_uint_canonical(items[9], 1);
    lemma_uint_canonical(items[10], 32);
    lemma_uint_canonical(items[11], 32);
    lemma_value_of_pad(items[10], 32);
    lemma_value_of_pad(items[11], 32);
    assert(signed.fields() =~= items);
}

/// Decoding inverts encoding, and nothing else decodes: a byte string
/// decodes to a transaction if and only if it is the canonical encoding of
/// that transaction.
pub proof fn lemma_transaction_decoding_is_inverse(bytes: Seq<u8>, tx: Transaction)
    requires
        tx@.encoding().len() <= u64::MAX,
    ensures
        TransactionView::decoded(bytes) == Ok::<TransactionView, DecoderError>(tx@) <==> bytes
            == tx@.encoding(),
{
    if bytes == tx@.encoding() {
        lemma_transaction_round_trip(tx);
    }
    if TransactionView::decoded(bytes) == Ok::<TransactionView, DecoderError>(tx@) {
        lemma_transaction_canonical(bytes);
    }
}

/// Two transactions with the same view hold the same value in every field.
pub proof fn lemma_transaction_view_injective(a: Transaction, b: Transaction)
    requires
        a@ == b@,
    ensures
        a.nonce == b.nonce,
        a.gas_price == b.gas_price,
        a.gas == b.gas,
        a.action == b.action,
        a.value == b.value,
        a.storage_limit == b.storage_limit,
        a.epoch_height == b.epoch_height,
        a.chain_id == b.chain_id,
        a.data@ == b.data@,
{
    lemma_u256_view_injective(a.nonce, b.nonce);
    lemma_u256_view_injective(a.gas_price, b.gas_price);
    lemma_u256_view_injective(a.gas, b.gas);
    lemma_u256_view_injective(a.value, b.value);
    lemma_action_view_injective(a.action, b.action);
}

} // verus!
