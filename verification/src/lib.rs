//! Verified models of two Soroban staking escrows: a plain collateral escrow
//! and an escrow whose withdrawals go through a two-step, time-locked handshake.
//!
//! The library holds the contract logic as state machines over plain values.
//! A host binding stores the state, demands the authorizations, performs the
//! token transfers and publishes the events that each call returns.

mod address;
mod address_map;
mod effects;
mod totals;
pub mod relayer_escrow;
pub mod token_escrow_handshake;

pub use address::Address;
pub use effects::{Direction, Effects, Event, Outcome, Transfer};
pub use relayer_escrow::{Error, RelayerEscrowState, RelayerStakingEscrow};
pub use token_escrow_handshake::{EscrowError, HandshakeState, TokenEscrowHandshake, UnlockRequest, COOLDOWN_SECONDS};
