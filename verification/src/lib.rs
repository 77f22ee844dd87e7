//! A verified non-fungible-token ownership ledger.
//!
//! The registry tracks which account owns which token, the per-token and
//! blanket delegations that permit transfers on an owner's behalf, and the
//! per-account ownership counters, together with opaque metadata side-tables.
//! Every operation either applies its whole effect or returns a typed error
//! and leaves the state untouched.

pub mod account;
pub mod error;
pub mod event;
pub mod registry;
pub mod store;

pub use account::AccountId;
pub use account::OperatorKey;
pub use error::Error;
pub use event::Event;
pub use registry::Erc721;
