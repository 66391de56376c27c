//! Verified accounting core for a shared reward pool and for multi-schedule
//! token vesting.
//!
//! The crate models two accountants that live inside a larger ledger host:
//! a pool accountant ([`pool`]) that distributes injected rewards to
//! depositors through a fixed-point reward-per-share accumulator, and a
//! vesting accountant ([`vesting`]) that tracks linear unlock schedules and
//! keeps a balance lock synchronized with the amount still locked.
//!
//! The host's balance and lock collaborator is modelled by [`ledger::Ledger`];
//! caller authentication is modelled by [`Origin`]; the host's block height is
//! passed into each operation as a plain argument. Every operation is a single
//! atomic state transition: on any error, no state changes.

use vstd::prelude::*;

pub mod alist;
pub mod ledger;
pub mod numeric;
pub mod pool;
pub mod vesting;

verus! {

/// Account identifier in the host ledger.
pub type AccountId = u64;

/// Fungible balance quantity.
pub type Balance = u64;

/// Block height, supplied by the host with each call.
pub type BlockNumber = u64;

/// Capability attached to an incoming call: either an authenticated account,
/// or the host's administrative (root) authority.
#[derive(Clone, Copy, Debug, PartialEq, Eq, Structural)]
pub enum Origin {
    /// A call signed by the given account.
    Signed(AccountId),
    /// A call issued with the host's administrative authority.
    Root,
}

impl Origin {
    /// The signing account, if the call is signed.
    pub open spec fn spec_signer(self) -> Option<AccountId> {
        match self {
            Origin::Signed(a) => Some(a),
            Origin::Root => None,
        }
    }
}

} // verus!
