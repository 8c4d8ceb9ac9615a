use vstd::prelude::*;

verus! {

/// Failures surfaced to the host. Handshake and send failures abort the call
/// before any state mutation; decode failures on the acknowledgment path do
/// the same (the whole invocation commits atomically or not at all).
#[derive(Clone, Debug, PartialEq, Eq)]
pub enum ContractError {
    /// The channel handshake proposed an ordered channel; only unordered
    /// channels are accepted.
    OnlyOrderedChannel,
    /// A version string in the handshake differed from the protocol version.
    InvalidIbcVersion { actual: String, expected: String },
    /// A query was sent against a channel id absent from the registry.
    NoSuchChannel { id: String },
    /// The outer acknowledgment envelope could not be decoded.
    MalformedAck,
    /// A nested layer of a success acknowledgment could not be decoded.
    MalformedResponse,
}

} // verus!
