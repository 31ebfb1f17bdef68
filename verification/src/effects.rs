use vstd::prelude::*;

use crate::address::Address;

verus! {

/// Which way tokens move between a relayer and the escrow.
#[derive(Clone, Copy, Debug, PartialEq, Eq)]
pub enum Direction {
    /// From the relayer's account into the escrow's own account.
    IntoEscrow,
    /// From the escrow's own account back to the relayer.
    OutOfEscrow,
}

/// A transfer of `amount` units of `token` between `relayer` and the escrow.
#[derive(Clone, Copy, Debug, PartialEq, Eq)]
pub struct Transfer {
    pub token: Address,
    pub relayer: Address,
    pub amount: i128,
    pub direction: Direction,
}

impl Transfer {
    /// How much the escrow's own token balance grows by this transfer
    /// (negative when tokens leave the escrow).
    pub open spec fn inflow(self) -> int {
        match self.direction {
            Direction::IntoEscrow => self.amount as int,
            Direction::OutOfEscrow => -(self.amount as int),
        }
    }
}

/// An event that a successful call publishes.
#[derive(Clone, Copy, Debug, PartialEq, Eq)]
pub enum Event {
    /// The escrow was bound to `token`.
    Init { token: Address },
    /// `relayer` staked `amount`.
    Deposit { relayer: Address, amount: i128 },
    /// `relayer` took `amount` of its stake back.
    Withdraw { relayer: Address, amount: i128 },
    /// `relayer` queued `amount` for withdrawal, claimable from `unlock_time` on.
    Unlock { relayer: Address, amount: i128, unlock_time: u64 },
    /// `relayer` claimed a queued withdrawal of `amount`.
    Claim { relayer: Address, amount: i128 },
}

impl Event {
    /// The topic under which the event is published.
    pub open spec fn spec_topic(self) -> Seq<char> {
        match self {
            Event::Init { .. } => "init"@,
            Event::Deposit { .. } => "deposit"@,
            Event::Withdraw { .. } => "withdraw"@,
            Event::Unlock { .. } => "unlock"@,
            Event::Claim { .. } => "claim"@,
        }
    }

    /// The topic under which the event is published.
    pub fn topic(&self) -> (t: &'static str)
        ensures
            t@ == self.spec_topic(),
    {
        match self {
            Event::Init { .. } => "init",
            Event::Deposit { .. } => "deposit",
            Event::Withdraw { .. } => "withdraw",
            Event::Unlock { .. } => "unlock",
            Event::Claim { .. } => "claim",
        }
    }
}

/// What a successful state-changing call asks of the host besides storing the
/// new state: at most one token transfer and one event.
#[derive(Clone, Copy, Debug, PartialEq, Eq)]
pub struct Effects {
    pub transfer: Option<Transfer>,
    pub event: Event,
}

impl Effects {
    /// How much the escrow's own token balance grows by these effects.
    pub open spec fn inflow(self) -> int {
        match self.transfer {
            Some(t) => t.inflow(),
            None => 0,
        }
    }
}

/// What a state-changing call comes to.
///
/// The host first demands the authorization of `authorizer`, when there is one;
/// when that is refused, the whole invocation aborts and nothing of it persists,
/// whatever `result` says. Otherwise the call ends with `result`: on `Ok`, the
/// host performs the effects (an aborting transfer aborts the invocation too);
/// on `Err`, the state is left as it was.
#[derive(Debug, PartialEq, Eq)]
pub struct Outcome<E> {
    pub authorizer: Option<Address>,
    pub result: Result<Effects, E>,
}

} // verus!
