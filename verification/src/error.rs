//! Error types of the engine.

use vstd::prelude::*;

verus! {

/// An error returned synchronously by the engine's entry points.
#[derive(Clone, Copy, PartialEq, Eq, Structural, Debug)]
pub enum Error {
    /// No Payjoin sender was configured.
    PayjoinUnavailable,
    /// No Payjoin receiver was configured.
    PayjoinReceiverUnavailable,
    /// The payment locator string could not be understood.
    PayjoinUriInvalid,
    /// The payment locator names an address of another network.
    InvalidNetwork,
    /// Neither the call nor the locator carried an amount.
    PayjoinRequestMissingAmount,
    /// A relay response could not be turned into a final transaction.
    PayjoinResponseProcessingFailed,
    /// A finalised transaction could not be accepted for tracking.
    PayjoinReceiverRequestValidationFailed,
}

impl Error {
    /// A short description, suitable for a failure event's reason field.
    pub fn description(&self) -> (r: &'static str)
        ensures
            r@ == self.spec_description(),
    {
        match self {
            Error::PayjoinUnavailable => "Payjoin sender is not configured.",
            Error::PayjoinReceiverUnavailable => "Payjoin receiver is not configured.",
            Error::PayjoinUriInvalid => "Payjoin URI is invalid.",
            Error::InvalidNetwork => "Payjoin URI is for a different network.",
            Error::PayjoinRequestMissingAmount => "No amount to send was given.",
            Error::PayjoinResponseProcessingFailed => "Failed to process Payjoin response.",
            Error::PayjoinReceiverRequestValidationFailed => "Failed to validate Payjoin transaction.",
        }
    }

    /// The description as a sequence of characters.
    pub open spec fn spec_description(self) -> Seq<char> {
        match self {
            Error::PayjoinUnavailable => "Payjoin sender is not configured."@,
            Error::PayjoinReceiverUnavailable => "Payjoin receiver is not configured."@,
            Error::PayjoinUriInvalid => "Payjoin URI is invalid."@,
            Error::InvalidNetwork => "Payjoin URI is for a different network."@,
            Error::PayjoinRequestMissingAmount => "No amount to send was given."@,
            Error::PayjoinResponseProcessingFailed => "Failed to process Payjoin response."@,
            Error::PayjoinReceiverRequestValidationFailed => "Failed to validate Payjoin transaction."@,
        }
    }
}

/// The rejection sent to a network peer when an incoming proposal fails
/// validation.
///
/// A malicious sender may probe a receiver with crafted proposals and use
/// differences between rejections to cluster the receiver's coins. The
/// type therefore carries no detail at all: every failure, at every
/// validation stage, is this same value, and the serialised response is
/// one fixed byte string.
#[derive(Clone, Copy, PartialEq, Eq, Structural, Debug)]
pub struct ProtocolError;

impl ProtocolError {
    /// The bytes sent to the peer for any rejected proposal.
    pub fn response_body(&self) -> (r: Vec<u8>)
        ensures
            r@ == Self::spec_response_body(),
    {
        let mut r: Vec<u8> = Vec::new();
        r.push(117u8);
        r.push(110u8);
        r.push(97u8);
        r.push(118u8);
        r.push(97u8);
        r.push(105u8);
        r.push(108u8);
        r.push(97u8);
        r.push(98u8);
        r.push(108u8);
        r.push(101u8);
        proof {
            assert(r@ =~= Self::spec_response_body());
        }
        r
    }

    /// The fixed rejection payload: the ASCII bytes of "unavailable".
    pub open spec fn spec_response_body() -> Seq<u8> {
        seq![117u8, 110u8, 97u8, 118u8, 97u8, 105u8, 108u8, 97u8, 98u8, 108u8, 101u8]
    }
}

/// Any two validation failures are indistinguishable on the wire:
/// whichever stages two proposals failed at, the rejection values are
/// equal, so their serialised bodies — fixed by
/// [`ProtocolError::spec_response_body`] — are byte-identical.
pub proof fn lemma_uniform_rejection(a: ProtocolError, b: ProtocolError)
    ensures
        a == b,
{
}

} // verus!
