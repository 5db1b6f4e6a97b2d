//! The payment handler: the entry points a node exposes for sending and
//! receiving Payjoin payments.
//!
//! Everything here is the synchronous part of a payment: checking the
//! configuration, reading the locator, resolving the amount. What comes
//! back from [`PayjoinPayment::send`] is a prepared session; the
//! surrounding node builds the original transaction with its wallet and
//! drives the polling loop (see [`crate::send::run_sender_loop`]) in the
//! background, reporting the outcome through events.

use vstd::prelude::*;

use crate::error::Error;
use crate::uri::{
    address_network_matches, address_valid_for, build_pj_uri, parse_uri, spec_parse, Network,
    PjUri,
};

verus! {

/// The sender-side configuration: the relay requests go through.
#[derive(Debug)]
pub struct SenderConfig {
    pub payjoin_relay: String,
}

/// The receiver-side configuration: the address payments should reach
/// and the enrolled endpoint senders are directed to.
#[derive(Debug)]
pub struct ReceiverConfig {
    pub address: String,
    pub pj_endpoint: String,
}

/// A send attempt, validated and ready for the node to drive: the
/// parsed locator and the resolved amount.
#[derive(Debug)]
pub struct SendSession {
    pub uri: PjUri,
    pub amount_sats: u64,
}

/// A payment handler allowing to send and receive Payjoin payments.
pub struct PayjoinPayment {
    pub network: Network,
    pub sender: Option<SenderConfig>,
    pub receiver: Option<ReceiverConfig>,
}

impl PayjoinPayment {
    /// A handler for the given network, with whichever sides are
    /// configured.
    pub fn new(network: Network, sender: Option<SenderConfig>, receiver: Option<ReceiverConfig>)
        -> (r: PayjoinPayment)
        ensures
            r.network == network,
            r.sender == sender,
            r.receiver == receiver,
    {
        PayjoinPayment { network, sender, receiver }
    }

    /// Begins a Payjoin payment to the address named in the locator,
    /// for the amount the locator carries.
    ///
    /// Only the synchronous checks happen here: a sender must be
    /// configured, the locator must parse, name an address of this
    /// node's network, and carry an amount. The returned session is
    /// what the node's background task needs; the outcome of the
    /// attempt surfaces later through events, never here.
    pub fn send(&self, payjoin_uri: String) -> (r: Result<SendSession, Error>)
        ensures
            self.sender is None ==> r == Err::<SendSession, Error>(Error::PayjoinUnavailable),
            self.sender is Some && spec_parse(payjoin_uri@) is None ==> r == Err::<
                SendSession,
                Error,
            >(Error::PayjoinUriInvalid),
            self.sender is Some ==> ({
                spec_parse(payjoin_uri@) matches Some(u) ==> {
                    if !address_valid_for(u.address, self.network) {
                        r == Err::<SendSession, Error>(Error::InvalidNetwork)
                    } else {
                        match u.amount_sats {
                            None => r == Err::<SendSession, Error>(
                                Error::PayjoinRequestMissingAmount,
                            ),
                            Some(a) => r matches Ok(s) && s.uri@ == u && s.amount_sats == a,
                        }
                    }
                }
            }),
    {
        if self.sender.is_none() {
            return Err(Error::PayjoinUnavailable);
        }
        let uri = match parse_uri(payjoin_uri.as_str()) {
            Ok(u) => u,
            Err(e) => {
                return Err(e);
            },
        };
        if !address_network_matches(uri.address.as_str(), self.network) {
            return Err(Error::InvalidNetwork);
        }
        let amount_sats = match uri.amount_sats {
            Some(a) => a,
            None => {
                return Err(Error::PayjoinRequestMissingAmount);
            },
        };
        Ok(SendSession { uri, amount_sats })
    }

    /// Begins a Payjoin payment of `amount_sats` to the address named
    /// in the locator, overriding whatever amount the locator carries.
    pub fn send_with_amount(&self, payjoin_uri: String, amount_sats: u64) -> (r: Result<
        SendSession,
        Error,
    >)
        ensures
            spec_parse(payjoin_uri@) is None ==> r == Err::<SendSession, Error>(
                Error::PayjoinUriInvalid,
            ),
            ({
                spec_parse(payjoin_uri@) matches Some(u) ==> {
                    if !address_valid_for(u.address, self.network) {
                        r == Err::<SendSession, Error>(Error::InvalidNetwork)
                    } else if self.sender is None {
                        r == Err::<SendSession, Error>(Error::PayjoinUnavailable)
                    } else {
                        r matches Ok(s) && s.uri@ == (crate::uri::PjUriV {
                            address: u.address,
                            amount_sats: Some(amount_sats),
                            endpoint: u.endpoint,
                        }) && s.amount_sats == amount_sats
                    }
                }
            }),
    {
        let mut uri = match parse_uri(payjoin_uri.as_str()) {
            Ok(u) => u,
            Err(e) => {
                return Err(e);
            },
        };
        if !address_network_matches(uri.address.as_str(), self.network) {
            return Err(Error::InvalidNetwork);
        }
        if self.sender.is_none() {
            return Err(Error::PayjoinUnavailable);
        }
        uri.amount_sats = Some(amount_sats);
        Ok(SendSession { uri, amount_sats })
    }

    /// Prepares to receive a Payjoin payment of `amount_sats`: returns
    /// the locator to hand to the sender, pointing at this node's
    /// enrolled endpoint. The node serves the endpoint itself and feeds
    /// incoming requests to [`crate::receive::Receiver`].
    pub fn receive(&self, amount_sats: u64) -> (r: Result<PjUri, Error>)
        ensures
            self.receiver is None ==> r == Err::<PjUri, Error>(Error::PayjoinReceiverUnavailable),
            ({
                self.receiver matches Some(rc) ==> r matches Ok(u) && u@ == (crate::uri::PjUriV {
                    address: rc.address@,
                    amount_sats: Some(amount_sats),
                    endpoint: rc.pj_endpoint@,
                })
            }),
    {
        match &self.receiver {
            Some(rc) => Ok(
                build_pj_uri(rc.address.clone(), amount_sats, rc.pj_endpoint.clone()),
            ),
            None => Err(Error::PayjoinReceiverUnavailable),
        }
    }
}

} // verus!
