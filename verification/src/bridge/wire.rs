//! The payload of a utility call.
use vstd::prelude::*;
use vstd::string::*;
use crate::bridge::run::BridgeMessage;

verus! {

/// A value of the wire, carried through as it is.
#[verifier::external_type_specification]
#[verifier::external_body]
pub struct ExWireValue(rmpv::Value);

/// A call of the frontend that asks for an answer.
pub struct UtilityCall {
    /// Names the call in its answer.
    pub call_id: rmpv::Value,
    pub method: String,
}

/// What a payload reads as: the identifier and the method of a call, or why it is
/// none.
pub uninterp spec fn utility_payload(frame: Seq<u8>) -> Result<
    (rmpv::Value, Seq<char>),
    Seq<char>,
>;

/// The result of reading a payload says what the payload reads as.
pub open spec fn reads_as(
    read: Result<(rmpv::Value, String), String>,
    payload: Result<(rmpv::Value, Seq<char>), Seq<char>>,
) -> bool {
    match payload {
        Ok((call_id, method)) => read matches Ok((id, name)) && id == call_id && name@ == method,
        Err(text) => read matches Err(error) && error@ == text,
    }
}

/// Reads a payload with `rmp_serde::from_slice`, as a client's index, an
/// identifier, a method's name and arguments. The contract names the second and
/// third of these, or the text of the error: they depend on the bytes alone. Which
/// bytes read as what is not stated.
#[verifier::external_body]
fn read_utility(frame: &[u8]) -> (read: Result<(rmpv::Value, String), String>)
    ensures
        reads_as(read, utility_payload(frame@)),
{
    match rmp_serde::from_slice::<(u32, rmpv::Value, String, rmpv::Value)>(frame) {
        Ok((_, call_id, method, _)) => Ok((call_id, method)),
        Err(error) => Err(error.to_string()),
    }
}

/// The message that a payload makes once it was read.
pub fn utility_message_of(read: Result<(rmpv::Value, String), String>) -> (message: BridgeMessage)
    ensures
        match read {
            Ok((call_id, method)) => message == BridgeMessage::Utility(
                UtilityCall { call_id, method },
            ),
            Err(error) => message == BridgeMessage::Undecodable(error),
        },
{
    match read {
        Ok((call_id, method)) => BridgeMessage::Utility(UtilityCall { call_id, method }),
        Err(error) => BridgeMessage::Undecodable(error),
    }
}

/// Takes the payload of a utility call.
pub fn utility_message(frame: &[u8]) -> (message: BridgeMessage)
    ensures
        match utility_payload(frame@) {
            Ok((call_id, method)) => {
                &&& message matches BridgeMessage::Utility(call)
                &&& call.call_id == call_id
                &&& call.method@ == method
            },
            Err(text) => message matches BridgeMessage::Undecodable(error) && error@ == text,
        },
{
    utility_message_of(read_utility(frame))
}

} // verus!
