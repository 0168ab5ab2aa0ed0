//! Construction, canonical encoding, signing and address derivation for
//! transactions of an account-based chain.

pub mod action;
pub mod codec;
pub mod error;
pub mod external;
pub mod signature;
pub mod transaction;
pub mod uint;
pub mod util;

pub use action::{Action, Address};
pub use error::{CurveError, DecoderError, Error};
pub use signature::{public_to_address, recover, sign, Message, Public, Secret, Signature};
pub use transaction::{Transaction, TransactionWithSignature};
pub use uint::U256;
pub use util::{call_data, oracle_call, privkey_to_address};
