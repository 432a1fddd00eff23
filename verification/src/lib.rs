//! PKCS#11-backed federation signing.
//!
//! A federation signer keeps its key in an HSM and signs its share of multisig
//! transactions. This library makes the decisions: how to open a session, how to
//! derive and find keys, what a policy permits, what to sign for an input and
//! where to put the signature. It makes no call on a token itself.
//!
//! Each operation is a [`program::Step`]: either it is done, or it asks for one
//! [`program::Request`] and goes on by the [`program::Reply`]. What an operation
//! asks, in what order, and what it comes to for every reply, is its program, a
//! [`program::Prog`]; the contract of the function that starts it names that
//! program, and [`program::Machine::resume`] keeps to it.
//!
//! - [`session`], [`config`], [`environment`]: opening a session with a token.
//! - [`token`], [`store`]: objects on a token, and data objects by label.
//! - [`key_ops`], [`backend`], [`bip32`], [`derivation`]: keys.
//! - [`policy`], [`psbt`], [`signing`], [`transaction`], [`ecdsa`]: signing.
//! - [`elements`]: signing Elements transactions.
//! - [`signer`], [`fleet`]: signers, and the fleet of a federation.
//! - [`outside`], [`text`]: calls into other crates, and text.
//! - [`run`], [`world`]: runs of programs, whatever the replies are and with a
//!   token that keeps to PKCS#11.
//! - [`laws`]: what holds of the library as a whole.
pub mod backend;
pub mod bip32;
pub mod config;
pub mod derivation;
pub mod ecdsa;
pub mod elements;
pub mod environment;
pub mod error;
pub mod fleet;
pub mod key_ops;
pub mod laws;
pub mod outside;
pub mod policy;
pub mod program;
pub mod psbt;
pub mod run;
pub mod session;
pub mod signer;
pub mod signing;
pub mod store;
pub mod text;
pub mod token;
pub mod transaction;
pub mod world;
