//! Escrow-backed job marketplace with stake-weighted dispute voting.
//!
//! The crate is organised around three components that share one failure
//! taxonomy and one asynchronous settlement pattern:
//! - a poll registry with stake-weighted vote recording, winner resolution
//!   and reward claiming,
//! - a job escrow state machine with two-sided confirmation, payout split
//!   and dispute delegation into the poll registry,
//! - a settlement coordinator that models the two-phase
//!   register-then-transfer payout against an external ledger as a
//!   correlation-id-keyed pending operation with dedicated result handlers.
//!
//! Every operation takes the authenticated caller and the current time as
//! explicit parameters; outcomes of external calls are delivered to the
//! dedicated handler entry points as plain values.

use vstd::prelude::*;

pub mod faucet;
pub mod jobs;
pub mod polls;
pub mod settle;
pub mod smap;

verus! {

/// Failure taxonomy shared by every mutating operation.
///
/// `Validation`: a bad time window or a non-positive amount, rejected before
/// any mutation. `Authorization`: wrong creator, owner or caller.
/// `NotFound`: a mutating operation on an unknown id. `DuplicateAction`:
/// already voted, already claimed, already started or already ended.
/// `ExternalService`: an external call reported not-ready or failed; the
/// already-committed state is not rolled back.
#[derive(Clone, Copy, Debug, PartialEq, Eq, Structural)]
pub enum CoreError {
    Validation,
    Authorization,
    NotFound,
    DuplicateAction,
    ExternalService,
}

} // verus!
