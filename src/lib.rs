//! Exclusive, serialized access to one shared two-wire bus from any number of
//! independent users.
//!
//! A [`Manager`] owns the physical bus. A user asks it for the bus with
//! [`Manager::acquire`]; while the bus is out on a [`Lease`] every other
//! request is answered with [`Admission::Busy`]. The lease is handed back with
//! [`Manager::finish`] once the one transaction it was taken for is over,
//! whether that transaction succeeded or failed. A holder that ends abnormally
//! hands it back with [`Manager::abort`], which poisons the manager for good.
//!
//! The manager records, as ghost state, the history of every transaction it
//! admitted; its contracts and the laws in [`manager`] are stated over that
//! history.
use vstd::prelude::*;

pub mod error;
pub mod laws;
pub mod manager;

pub use error::BusShareError;
pub use manager::{Admission, Lease, Manager, Outcome};
