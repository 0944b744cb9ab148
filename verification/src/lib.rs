//! Combinators that drive a fixed group of cancellable operations to completion.
//!
//! An operation, once started, may have committed effects that cannot be abandoned at
//! once. A [`JoinGroup`] therefore drives each of its operations either to its natural
//! result or through a cooperative cancellation handshake, polls only the operations
//! that were woken, and yields one combined result under one of four policies.

pub mod adapter;
pub mod group;
pub mod ledger;
pub mod outcome;
pub mod policy;
pub mod slot;
pub mod tally;
pub mod wake;

pub use adapter::{Adapter, FutureExt, MustComplete, NowOrNever};
pub use group::JoinGroup;
pub use ledger::{Answer, Due, Ledger, LedgerView, Phase, Status};
pub use policy::{GroupOutcome, GroupResult, Policy};
pub use slot::{Operation, Readiness, SlotState, Teardown, Verdict, WakeToken};
pub use wake::WakeTable;
