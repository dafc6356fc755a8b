//! The pool factory: deploys pools and keeps a registry of them.
use vstd::prelude::*;

pub mod contract;
pub mod error;

pub use contract::PoolFactory;
pub use error::Error;

verus! {

} // verus!
