//! What holds of the library as a whole.
pub mod covered;
pub mod derivations;
pub mod failures;
pub mod fleets;
pub mod keys;
pub mod opening;
pub mod progress;
pub mod psets;
pub mod signers;
pub mod signing;
pub mod stored;
pub mod texts;
pub mod views;
