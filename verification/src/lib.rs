//! A verified engine for the Payjoin protocol (BIP 78 / BIP 77).
//!
//! The crate covers the protocol's decision logic: the receiver-side
//! validation pipeline that turns an untrusted incoming proposal into a
//! signed response, the privacy-preserving coin selection, the sender-side
//! negotiation loop, and the confirmation tracker that watches the chain
//! until a settled transaction may be reported.
//!
//! Everything the engine decides on is plain data: transactions, partially
//! signed transactions and block identifiers are modelled by value types in
//! [`types`]. The surrounding node hands in the facts only it can know (the
//! wallet's ownership answers, signing outcomes, relay responses, chain
//! notifications) and performs the I/O; the engine's functions are pure or
//! operate on owned state, and every one carries a contract.

pub mod error;
pub mod events;
pub mod handler;
pub mod payment;
pub mod receive;
pub mod select;
pub mod send;
pub mod types;
pub mod uri;
