//! What the surrounding service asks of the library: the address of its
//! own key, and the transaction that fulfils a request.

use vstd::prelude::*;
use crate::action::{Action, ActionView, Address};
use crate::error::Error;
use crate::external::ecdsa_signature;
use crate::signature::{
    address_of_public, public_to_address, recover_outcome, signed_outcome, Secret,
};
use crate::transaction::{Transaction, TransactionView};
use crate::codec::append_bytes;
use crate::uint::{minimal_be, pad, U256};

verus! {

/// The address of a private key: that of the public key which is recovered
/// from the signature that the key makes of the digest of the empty
/// transaction.
pub open spec fn address_of_secret(secret: Seq<u8>) -> Result<Seq<u8>, Error> {
    let digest = TransactionView::empty().digest();
    match signed_outcome(ecdsa_signature(secret, digest)) {
        Err(e) => Err(e),
        Ok(signature) => match recover_outcome(signature, digest) {
            Err(e) => Err(e),
            Ok(public) => Ok(address_of_public(public)),
        },
    }
}

/// The address of a private key. Fails, with the rendered error, where the
/// key cannot sign or the signer cannot be recovered.
pub fn privkey_to_address(privkey: [u8; 32]) -> (r: Result<Address, String>)
    ensures
        match r {
            Ok(address) => address_of_secret(privkey@) == Ok::<Seq<u8>, Error>(address@)
                && address@[0] & 0xf0 == 0x10,
            Err(text) => address_of_secret(privkey@) is Err && text@ == address_of_secret(
                privkey@,
            )->Err_0.rendered(),
        },
{
    let tx = Transaction::default();
    let secret = Secret::from(privkey);
    let signed = match tx.sign(&secret) {
        Ok(signed) => signed,
        Err(e) => {
            return Err(e.to_string());
        },
    };
    match signed.recover_public() {
        Ok(public) => Ok(public_to_address(&public)),
        Err(e) => Err(e.to_string()),
    }
}

/// The payload of the call that hands a number to an oracle contract: the
/// bytes that select the function and its first arguments, followed by the
/// number as a word of 32 big-endian bytes.
pub fn call_data(head: &[u8], result: u64) -> (data: Vec<u8>)
    ensures
        data@ == head@ + pad(minimal_be(result as nat), 32),
{
    let mut data: Vec<u8> = Vec::new();
    append_bytes(&mut data, head);
    let word = U256::from_u64(result).to_big_endian();
    append_bytes(&mut data, word.as_slice());
    data
}

/// The transaction that calls an oracle contract with a payload: one unit
/// of price for a budget of 500000 units of gas, no value, a storage limit
/// of 1000, on chain 1.
pub fn oracle_call(oracle: Address, data: Vec<u8>, epoch_height: u64, nonce: U256) -> (tx:
    Transaction)
    ensures
        tx@ == (TransactionView {
            nonce: nonce@,
            gas_price: 1,
            gas: 500_000,
            action: ActionView::Call(oracle@),
            value: 0,
            storage_limit: 1000,
            epoch_height,
            chain_id: 1,
            data: data@,
        }),
{
    Transaction {
        action: Action::Call(oracle),
        chain_id: 1,
        data,
        epoch_height,
        gas: U256::from_u64(500_000),
        gas_price: U256::from_u64(1),
        nonce,
        storage_limit: 1000,
        value: U256::from_u64(0),
    }
}

} // verus!
