//! What a transaction does: create a contract, or call an address.

use vstd::prelude::*;
use crate::codec::{
    decode_string, encoded_string, lemma_string_canonical, lemma_string_round_trip,
    string_outcome, write_string,
};
use crate::error::DecoderError;

verus! {

/// The identifier of an account: 20 bytes.
pub type Address = [u8; 20];

/// What a transaction does.
#[derive(Debug, Clone, Copy, PartialEq, Eq)]
pub enum Action {
    /// Create a contract.
    Create,
    /// Call the account at an address.
    Call(Address),
}

/// An action as a mathematical value.
pub enum ActionView {
    Create,
    Call(Seq<u8>),
}

impl View for Action {
    type V = ActionView;

    open spec fn view(&self) -> ActionView {
        match *self {
            Action::Create => ActionView::Create,
            Action::Call(address) => ActionView::Call(address@),
        }
    }
}

impl ActionView {
    /// The byte string that stands for the action: empty for a creation,
    /// the address for a call.
    pub open spec fn field(self) -> Seq<u8> {
        match self {
            ActionView::Create => Seq::empty(),
            ActionView::Call(address) => address,
        }
    }

    /// The encoding of the action.
    pub open spec fn encoding(self) -> Seq<u8> {
        encoded_string(self.field())
    }

    /// The action that a byte string stands for: a creation for the empty
    /// string, a call for 20 bytes, and nothing for any other length.
    pub open spec fn of_field(bytes: Seq<u8>) -> Result<ActionView, DecoderError> {
        if bytes.len() == 0 {
            Ok(ActionView::Create)
        } else if bytes.len() < 20 {
            Err(DecoderError::RlpIsTooShort)
        } else if bytes.len() > 20 {
            Err(DecoderError::RlpIsTooBig)
        } else {
            Ok(ActionView::Call(bytes))
        }
    }

    /// What decoding an action from the whole input gives.
    pub open spec fn decoded(bytes: Seq<u8>) -> Result<ActionView, DecoderError> {
        match string_outcome(bytes) {
            Err(e) => Err(e),
            Ok((data, used)) => {
                if used != bytes.len() {
                    Err(DecoderError::RlpInconsistentLengthAndData)
                } else {
                    ActionView::of_field(data)
                }
            },
        }
    }
}

impl Default for Action {
    /// The default action is the creation of a contract.
    fn default() -> (r: Action)
        ensures
            r == Action::Create,
    {
        Action::Create
    }
}

impl Action {
    /// The byte string that stands for the action.
    pub fn to_field(&self) -> (out: Vec<u8>)
        ensures
            out@ == self@.field(),
    {
        let mut out: Vec<u8> = Vec::new();
        match self {
            Action::Create => {},
            Action::Call(address) => {
                let mut i: usize = 0;
                while i < 20
                    invariant
                        i <= 20,
                        out@ == address@.take(i as int),
                    decreases 20 - i,
                {
                    out.push(address[i]);
                    proof {
                        assert(address@.take(i + 1) =~= address@.take(i as int).push(
                            address@[i as int],
                        ));
                    }
                    i = i + 1;
                }
                proof {
                    assert(address@.take(20) =~= address@);
                }
            },
        }
        out
    }

    /// The action that a byte string stands for. Fails on every length but
    /// 0 and 20.
    pub fn from_field(bytes: &[u8]) -> (r: Result<Action, DecoderError>)
        ensures
            match r {
                Ok(action) => ActionView::of_field(bytes@) == Ok::<ActionView, DecoderError>(
                    action@,
                ),
                Err(e) => ActionView::of_field(bytes@) == Err::<ActionView, DecoderError>(e),
            },
            r is Ok <==> bytes@.len() == 0 || bytes@.len() == 20,
    {
        if bytes.len() == 0 {
            Ok(Action::Create)
        } else if bytes.len() < 20 {
            Err(DecoderError::RlpIsTooShort)
        } else if bytes.len() > 20 {
            Err(DecoderError::RlpIsTooBig)
        } else {
            let mut address: Address = [0u8; 20];
            let mut i: usize = 0;
            while i < 20
                invariant
                    i <= 20,
                    bytes@.len() == 20,
                    forall|j: int| 0 <= j < i ==> address@[j] == bytes@[j],
                decreases 20 - i,
            {
                address[i] = bytes[i];
                i = i + 1;
            }
            proof {
                assert(address@ =~= bytes@);
            }
            Ok(Action::Call(address))
        }
    }

    /// Appends the encoding of the action to a buffer.
    pub fn rlp_append(&self, stream: &mut Vec<u8>)
        ensures
            final(stream)@ == old(stream)@ + self@.encoding(),
    {
        let field = self.to_field();
        write_string(stream, field.as_slice());
    }

    /// Decodes an action from the whole input.
    pub fn decode(bytes: &[u8]) -> (r: Result<Action, DecoderError>)
        ensures
            match r {
                Ok(action) => ActionView::decoded(bytes@) == Ok::<ActionView, DecoderError>(
                    action@,
                ),
                Err(e) => ActionView::decoded(bytes@) == Err::<ActionView, DecoderError>(e),
            },
    {
        match decode_string(bytes) {
            Err(e) => Err(e),
            Ok((data, used)) => {
                if used != bytes.len() {
                    Err(DecoderError::RlpInconsistentLengthAndData)
                } else {
                    Action::from_field(data.as_slice())
                }
            },
        }
    }
}

/// Two actions with the same view are the same action.
pub proof fn lemma_action_view_injective(a: Action, b: Action)
    requires
        a@ == b@,
    ensures
        a == b,
{
    match (a, b) {
        (Action::Call(x), Action::Call(y)) => {
            assert(x =~= y);
        },
        _ => {},
    }
}

/// Decoding the encoding of an action gives the action back.
pub proof fn lemma_action_round_trip(action: Action)
    ensures
        ActionView::decoded(action@.encoding()) == Ok::<ActionView, DecoderError>(action@),
{
    let field = action@.field();
    lemma_string_round_trip(field, Seq::<u8>::empty());
    assert(encoded_string(field) + Seq::<u8>::empty() =~= encoded_string(field));
}

/// Nothing but the encoding of an action decodes to it.
pub proof fn lemma_action_canonical(bytes: Seq<u8>)
    requires
        ActionView::decoded(bytes) is Ok,
    ensures
        ActionView::decoded(bytes)->Ok_0.encoding() == bytes,
{
    lemma_string_canonical(bytes);
    assert(bytes.subrange(0, bytes.len() as int) =~= bytes);
}

/// Decoding inverts encoding, and nothing else decodes: a byte string
/// decodes to an action if and only if it is the encoding of that action.
pub proof fn lemma_action_decoding_is_inverse(bytes: Seq<u8>, action: Action)
    ensures
        ActionView::decoded(bytes) == Ok::<ActionView, DecoderError>(action@) <==> bytes
            == action@.encoding(),
{
    if bytes == action@.encoding() {
        lemma_action_round_trip(action);
    }
    if ActionView::decoded(bytes) == Ok::<ActionView, DecoderError>(action@) {
        lemma_action_canonical(bytes);
    }
}

} // verus!
