use vstd::prelude::*;

pub mod cli;
pub mod cloud;
pub mod dialog;
pub mod paths;
pub mod registry;
pub mod reinsert;
pub mod relex;
pub mod reparse;
pub mod round;
pub mod session;
pub mod shutdown;
pub mod signer;
pub mod steam;
pub mod text;
pub mod vdf;
pub mod workflow;

verus! {
}
