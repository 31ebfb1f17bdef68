//! Token escrow with a withdrawal handshake: a withdrawal is first initiated,
//! which takes the amount out of the stake and starts a two-day cooldown, and
//! only after the cooldown can the relayer claim the tokens.
use vstd::prelude::*;

use crate::address::Address;
use crate::address_map::AddressMap;
use crate::effects::{Direction, Effects, Event, Outcome, Transfer};
use crate::totals::{
    lemma_sum_congruent, lemma_sum_remove, lemma_sum_single_change, lemma_sum_zero, sum_over,
};

verus! {

/// The cooldown between initiating and claiming a withdrawal, in seconds (two days).
pub const COOLDOWN_SECONDS: u64 = 172_800;

/// A pending withdrawal created by `initiate_unlock`.
#[derive(Clone, Copy, Debug, PartialEq, Eq)]
pub struct UnlockRequest {
    /// Amount of tokens queued for withdrawal.
    pub amount: i128,
    /// Ledger timestamp from which `claim_unlock` is valid.
    pub unlock_time: u64,
}

/// The ways a call of the escrow can fail.
#[derive(Clone, Copy, Debug, PartialEq, Eq)]
pub enum EscrowError {
    /// The escrow has not been initialized yet.
    NotInitialized,
    /// The escrow has already been initialized.
    AlreadyInitialized,
    /// The relayer does not have enough staked balance.
    InsufficientStake,
    /// A pending unlock request already exists for this relayer.
    PendingUnlockExists,
    /// No unlock request was found for this relayer.
    NoUnlockRequest,
    /// The cooldown has not elapsed yet.
    CooldownNotElapsed,
    /// The amount must be greater than zero.
    InvalidAmount,
}

impl EscrowError {
    /// The contract error code of the variant.
    pub open spec fn spec_code(self) -> u32 {
        match self {
            EscrowError::NotInitialized => 1,
            EscrowError::AlreadyInitialized => 2,
            EscrowError::InsufficientStake => 3,
            EscrowError::PendingUnlockExists => 4,
            EscrowError::NoUnlockRequest => 5,
            EscrowError::CooldownNotElapsed => 6,
            EscrowError::InvalidAmount => 7,
        }
    }

    /// The contract error code of the variant.
    pub fn code(&self) -> (c: u32)
        ensures
            c == self.spec_code(),
    {
        match self {
            EscrowError::NotInitialized => 1,
            EscrowError::AlreadyInitialized => 2,
            EscrowError::InsufficientStake => 3,
            EscrowError::PendingUnlockExists => 4,
            EscrowError::NoUnlockRequest => 5,
            EscrowError::CooldownNotElapsed => 6,
            EscrowError::InvalidAmount => 7,
        }
    }
}

/// The state of the escrow: the token it accepts, once initialized, the stored
/// stake of each relayer and the pending unlock request of each relayer.
pub ghost struct HandshakeState {
    pub token: Option<Address>,
    pub stakes: Map<Address, i128>,
    pub unlocks: Map<Address, UnlockRequest>,
}

impl HandshakeState {
    /// The state of a freshly deployed escrow.
    pub open spec fn deployed() -> HandshakeState {
        HandshakeState { token: None, stakes: Map::empty(), unlocks: Map::empty() }
    }

    /// No stored stake is negative and every pending request is for a positive amount.
    pub open spec fn well_formed(self) -> bool {
        &&& forall|r: Address| #[trigger] self.stakes.dom().contains(r) ==> self.stakes[r] >= 0
        &&& forall|r: Address| #[trigger] self.unlocks.dom().contains(r) ==> self.unlocks[r].amount > 0
    }

    /// The staked balance of `relayer`; zero when it never deposited.
    pub open spec fn stake_of(self, relayer: Address) -> i128 {
        if self.stakes.dom().contains(relayer) {
            self.stakes[relayer]
        } else {
            0
        }
    }

    /// The amount `relayer` has queued for withdrawal; zero when nothing is pending.
    pub open spec fn pending_of(self, relayer: Address) -> i128 {
        if self.unlocks.dom().contains(relayer) {
            self.unlocks[relayer].amount
        } else {
            0
        }
    }

    /// The pending unlock request of `relayer`.
    pub open spec fn get_unlock_request(self, relayer: Address) -> Option<UnlockRequest> {
        if self.unlocks.dom().contains(relayer) {
            Some(self.unlocks[relayer])
        } else {
            None
        }
    }

    /// The token accepted by the escrow.
    pub open spec fn get_token(self) -> Result<Address, EscrowError> {
        match self.token {
            Some(t) => Ok(t),
            None => Err(EscrowError::NotInitialized),
        }
    }

    /// Binds the escrow to `token`, once, with the authorization of `admin`.
    pub open spec fn initialize(self, admin: Address, token: Address) -> (HandshakeState, Outcome<EscrowError>) {
        if self.token is Some {
            (self, Outcome { authorizer: None, result: Err(EscrowError::AlreadyInitialized) })
        } else {
            (
                HandshakeState { token: Some(token), ..self },
                Outcome {
                    authorizer: Some(admin),
                    result: Ok(Effects { transfer: None, event: Event::Init { token } }),
                },
            )
        }
    }

    /// Whether the new stake of a deposit fits in an `i128`, where the deposit gets that far.
    pub open spec fn deposit_fits(self, relayer: Address, amount: i128) -> bool {
        self.token is Some && amount > 0 ==> self.stake_of(relayer) + amount <= i128::MAX
    }

    /// `relayer` moves `amount` tokens into the escrow and adds them to its stake.
    pub open spec fn deposit_stake(self, relayer: Address, amount: i128) -> (
        HandshakeState,
        Outcome<EscrowError>,
    ) {
        match self.token {
            None => (self, Outcome { authorizer: None, result: Err(EscrowError::NotInitialized) }),
            Some(token) => if amount <= 0 {
                (self, Outcome { authorizer: None, result: Err(EscrowError::InvalidAmount) })
            } else {
                (
                    HandshakeState {
                        stakes: self.stakes.insert(
                            relayer,
                            (self.stake_of(relayer) + amount) as i128,
                        ),
                        ..self
                    },
                    Outcome {
                        authorizer: Some(relayer),
                        result: Ok(
                            Effects {
                                transfer: Some(
                                    Transfer {
                                        token,
                                        relayer,
                                        amount,
                                        direction: Direction::IntoEscrow,
                                    },
                                ),
                                event: Event::Deposit { relayer, amount },
                            },
                        ),
                    },
                )
            },
        }
    }

    /// Whether an unlock of `amount` by `relayer` passes every check.
    pub open spec fn unlock_allowed(self, relayer: Address, amount: i128) -> bool {
        &&& self.token is Some
        &&& amount > 0
        &&& !self.unlocks.dom().contains(relayer)
        &&& amount <= self.stake_of(relayer)
    }

    /// Whether the unlock time `now + COOLDOWN_SECONDS` fits in a `u64`, where an
    /// unlock gets that far.
    pub open spec fn unlock_time_fits(self, relayer: Address, amount: i128, now: u64) -> bool {
        self.unlock_allowed(relayer, amount) ==> now + COOLDOWN_SECONDS <= u64::MAX
    }

    /// At time `now`, `relayer` takes `amount` out of its stake and queues it
    /// for withdrawal once the cooldown has passed.
    pub open spec fn initiate_unlock(self, relayer: Address, amount: i128, now: u64) -> (
        HandshakeState,
        Outcome<EscrowError>,
    ) {
        if self.token is None {
            (self, Outcome { authorizer: None, result: Err(EscrowError::NotInitialized) })
        } else if amount <= 0 {
            (self, Outcome { authorizer: None, result: Err(EscrowError::InvalidAmount) })
        } else if self.unlocks.dom().contains(relayer) {
            (
                self,
                Outcome { authorizer: Some(relayer), result: Err(EscrowError::PendingUnlockExists) },
            )
        } else if amount > self.stake_of(relayer) {
            (
                self,
                Outcome { authorizer: Some(relayer), result: Err(EscrowError::InsufficientStake) },
            )
        } else {
            let unlock_time = (now + COOLDOWN_SECONDS) as u64;
            (
                HandshakeState {
                    stakes: self.stakes.insert(relayer, (self.stake_of(relayer) - amount) as i128),
                    unlocks: self.unlocks.insert(relayer, UnlockRequest { amount, unlock_time }),
                    ..self
                },
                Outcome {
                    authorizer: Some(relayer),
                    result: Ok(
                        Effects {
                            transfer: None,
                            event: Event::Unlock { relayer, amount, unlock_time },
                        },
                    ),
                },
            )
        }
    }

    /// At time `now`, `relayer` claims its pending withdrawal, if the cooldown has passed.
    pub open spec fn claim_unlock(self, relayer: Address, now: u64) -> (
        HandshakeState,
        Outcome<EscrowError>,
    ) {
        match self.token {
            None => (self, Outcome { authorizer: None, result: Err(EscrowError::NotInitialized) }),
            Some(token) => if !self.unlocks.dom().contains(relayer) {
                (
                    self,
                    Outcome { authorizer: Some(relayer), result: Err(EscrowError::NoUnlockRequest) },
                )
            } else if now < self.unlocks[relayer].unlock_time {
                (
                    self,
                    Outcome {
                        authorizer: Some(relayer),
                        result: Err(EscrowError::CooldownNotElapsed),
                    },
                )
            } else {
                let amount = self.unlocks[relayer].amount;
                (
                    HandshakeState { unlocks: self.unlocks.remove(relayer), ..self },
                    Outcome {
                        authorizer: Some(relayer),
                        result: Ok(
                            Effects {
                                transfer: Some(
                                    Transfer {
                                        token,
                                        relayer,
                                        amount,
                                        direction: Direction::OutOfEscrow,
                                    },
                                ),
                                event: Event::Claim { relayer, amount },
                            },
                        ),
                    },
                )
            },
        }
    }
}

/// The token escrow with a two-step, time-locked withdrawal handshake.
#[derive(Clone)]
pub struct TokenEscrowHandshake {
    token: Option<Address>,
    stakes: AddressMap<i128>,
    unlocks: AddressMap<UnlockRequest>,
}

impl View for TokenEscrowHandshake {
    type V = HandshakeState;

    closed spec fn view(&self) -> HandshakeState {
        HandshakeState { token: self.token, stakes: self.stakes@, unlocks: self.unlocks@ }
    }
}

impl TokenEscrowHandshake {
    /// The representation is sound and the state well formed.
    pub closed spec fn wf(&self) -> bool {
        self.stakes.wf() && self.unlocks.wf() && self@.well_formed()
    }

    /// A freshly deployed escrow, not yet initialized.
    pub fn new() -> (e: Self)
        ensures
            e.wf(),
            e@ == HandshakeState::deployed(),
    {
        TokenEscrowHandshake { token: None, stakes: AddressMap::new(), unlocks: AddressMap::new() }
    }

    /// Stores the token the escrow accepts. Can only be called once.
    ///
    /// Needs the authorization of `admin`, the party that sets the escrow up.
    pub fn initialize(&mut self, admin: Address, token: Address) -> (out: Outcome<EscrowError>)
        requires
            old(self).wf(),
        ensures
            final(self).wf(),
            (final(self)@, out) == old(self)@.initialize(admin, token),
    {
        if self.token.is_some() {
            return Outcome { authorizer: None, result: Err(EscrowError::AlreadyInitialized) };
        }
        self.token = Some(token);
        assert(self@.stakes == old(self)@.stakes && self@.unlocks == old(self)@.unlocks);
        Outcome {
            authorizer: Some(admin),
            result: Ok(Effects { transfer: None, event: Event::Init { token } }),
        }
    }

    /// Moves `amount` tokens from `relayer` into the escrow and adds them to its stake.
    ///
    /// Needs the relayer's authorization.
    pub fn deposit_stake(&mut self, relayer: Address, amount: i128) -> (out: Outcome<EscrowError>)
        requires
            old(self).wf(),
            old(self)@.deposit_fits(relayer, amount),
        ensures
            final(self).wf(),
            (final(self)@, out) == old(self)@.deposit_stake(relayer, amount),
    {
        if let Err(e) = self.assert_initialized() {
            return Outcome { authorizer: None, result: Err(e) };
        }
        if amount <= 0 {
            return Outcome { authorizer: None, result: Err(EscrowError::InvalidAmount) };
        }
        let token = self.token();
        let current = self.get_stake(relayer);
        self.stakes.insert(relayer, current + amount);
        proof {
            assert(self@ == old(self)@.deposit_stake(relayer, amount).0);
        }
        Outcome {
            authorizer: Some(relayer),
            result: Ok(
                Effects {
                    transfer: Some(
                        Transfer { token, relayer, amount, direction: Direction::IntoEscrow },
                    ),
                    event: Event::Deposit { relayer, amount },
                },
            ),
        }
    }

    /// Begins the cooldown for withdrawing `amount` tokens, at ledger time `now`.
    ///
    /// Needs the relayer's authorization. Deducts `amount` from the relayer's
    /// stake at once and stores an unlock request with
    /// `unlock_time = now + COOLDOWN_SECONDS`; fails when a request is already pending.
    pub fn initiate_unlock(&mut self, relayer: Address, amount: i128, now: u64) -> (out: Outcome<
        EscrowError,
    >)
        requires
            old(self).wf(),
            old(self)@.unlock_time_fits(relayer, amount, now),
        ensures
            final(self).wf(),
            (final(self)@, out) == old(self)@.initiate_unlock(relayer, amount, now),
    {
        if let Err(e) = self.assert_initialized() {
            return Outcome { authorizer: None, result: Err(e) };
        }
        if amount <= 0 {
            return Outcome { authorizer: None, result: Err(EscrowError::InvalidAmount) };
        }
        if self.unlocks.get(&relayer).is_some() {
            return Outcome {
                authorizer: Some(relayer),
                result: Err(EscrowError::PendingUnlockExists),
            };
        }
        let current_stake = self.get_stake(relayer);
        if amount > current_stake {
            return Outcome { authorizer: Some(relayer), result: Err(EscrowError::InsufficientStake) };
        }
        self.stakes.insert(relayer, current_stake - amount);
        let unlock_time = now + COOLDOWN_SECONDS;
        self.unlocks.insert(relayer, UnlockRequest { amount, unlock_time });
        proof {
            assert(self@ == old(self)@.initiate_unlock(relayer, amount, now).0);
        }
        Outcome {
            authorizer: Some(relayer),
            result: Ok(
                Effects { transfer: None, event: Event::Unlock { relayer, amount, unlock_time } },
            ),
        }
    }

    /// Claims the pending withdrawal of `relayer` at ledger time `now`.
    ///
    /// Needs the relayer's authorization. Fails when no request is pending or
    /// its cooldown has not elapsed; otherwise removes the request and sends
    /// its amount from the escrow to the relayer.
    pub fn claim_unlock(&mut self, relayer: Address, now: u64) -> (out: Outcome<EscrowError>)
        requires
            old(self).wf(),
        ensures
            final(self).wf(),
            (final(self)@, out) == old(self)@.claim_unlock(relayer, now),
    {
        if let Err(e) = self.assert_initialized() {
            return Outcome { authorizer: None, result: Err(e) };
        }
        let request = match self.unlocks.get(&relayer) {
            Some(r) => r,
            None => {
                return Outcome {
                    authorizer: Some(relayer),
                    result: Err(EscrowError::NoUnlockRequest),
                };
            },
        };
        if now < request.unlock_time {
            return Outcome {
                authorizer: Some(relayer),
                result: Err(EscrowError::CooldownNotElapsed),
            };
        }
        let amount = request.amount;
        self.unlocks.remove(&relayer);
        let token = self.token();
        proof {
            assert(self@ == old(self)@.claim_unlock(relayer, now).0);
        }
        Outcome {
            authorizer: Some(relayer),
            result: Ok(
                Effects {
                    transfer: Some(
                        Transfer { token, relayer, amount, direction: Direction::OutOfEscrow },
                    ),
                    event: Event::Claim { relayer, amount },
                },
            ),
        }
    }

    /// A well-formed escrow is in a well-formed state.
    pub proof fn lemma_wf_well_formed(&self)
        requires
            self.wf(),
        ensures
            self@.well_formed(),
    {
    }

    /// Restores the token of an initialized escrow, as kept in the host's storage.
    pub fn load_token(&mut self, token: Address)
        requires
            old(self).wf(),
        ensures
            final(self).wf(),
            final(self)@ == (HandshakeState { token: Some(token), ..old(self)@ }),
    {
        self.token = Some(token);
        assert(self@.stakes == old(self)@.stakes);
    }

    /// Restores the stored stake of `relayer`, as kept in the host's storage.
    pub fn load_stake(&mut self, relayer: Address, stake: i128)
        requires
            old(self).wf(),
            stake >= 0,
        ensures
            final(self).wf(),
            final(self)@ == (HandshakeState {
                stakes: old(self)@.stakes.insert(relayer, stake),
                ..old(self)@
            }),
    {
        self.stakes.insert(relayer, stake);
    }

    /// Restores the pending unlock request of `relayer`, as kept in the host's storage.
    pub fn load_unlock_request(&mut self, relayer: Address, request: UnlockRequest)
        requires
            old(self).wf(),
            request.amount > 0,
        ensures
            final(self).wf(),
            final(self)@ == (HandshakeState {
                unlocks: old(self)@.unlocks.insert(relayer, request),
                ..old(self)@
            }),
    {
        self.unlocks.insert(relayer, request);
    }

    /// Whether a deposit of `amount` by `relayer` keeps its stake within an `i128`,
    /// where the deposit gets that far.
    pub fn deposit_fits(&self, relayer: Address, amount: i128) -> (r: bool)
        requires
            self.wf(),
        ensures
            r == self@.deposit_fits(relayer, amount),
    {
        if self.token.is_none() || amount <= 0 {
            return true;
        }
        let current = self.get_stake(relayer);
        amount <= i128::MAX - current
    }

    /// Whether an unlock of `amount` by `relayer` at time `now` gets an unlock
    /// time within a `u64`, where the unlock gets that far.
    pub fn unlock_time_fits(&self, relayer: Address, amount: i128, now: u64) -> (r: bool)
        requires
            self.wf(),
        ensures
            r == self@.unlock_time_fits(relayer, amount, now),
    {
        let allowed = self.token.is_some() && amount > 0 && self.unlocks.get(&relayer).is_none()
            && amount <= self.get_stake(relayer);
        !allowed || now <= u64::MAX - COOLDOWN_SECONDS
    }

    /// The relayer's current staked balance; zero when it never deposited.
    pub fn get_stake(&self, relayer: Address) -> (s: i128)
        requires
            self.wf(),
        ensures
            s == self@.stake_of(relayer),
            s >= 0,
    {
        match self.stakes.get(&relayer) {
            Some(s) => {
                assert(self@.stakes.dom().contains(relayer));
                s
            },
            None => 0,
        }
    }

    /// The pending unlock request of `relayer`, if any.
    pub fn get_unlock_request(&self, relayer: Address) -> (r: Option<UnlockRequest>)
        requires
            self.wf(),
        ensures
            r == self@.get_unlock_request(relayer),
    {
        self.unlocks.get(&relayer)
    }

    /// The token this escrow was initialized with.
    pub fn get_token(&self) -> (r: Result<Address, EscrowError>)
        ensures
            r == self@.get_token(),
    {
        match self.token {
            Some(t) => Ok(t),
            None => Err(EscrowError::NotInitialized),
        }
    }

    /// Fails with `NotInitialized` until the escrow has a token.
    fn assert_initialized(&self) -> (r: Result<(), EscrowError>)
        ensures
            r == (if self@.token is Some {
                Ok::<(), EscrowError>(())
            } else {
                Err(EscrowError::NotInitialized)
            }),
    {
        if self.token.is_none() {
            return Err(EscrowError::NotInitialized);
        }
        Ok(())
    }

    /// The token of an initialized escrow.
    fn token(&self) -> (t: Address)
        requires
            self@.token is Some,
        ensures
            self@.token == Some(t),
    {
        self.token.unwrap()
    }
}

impl HandshakeState {
    /// What the escrow holds on behalf of `relayer`: its stake plus its pending withdrawal.
    pub open spec fn holding_of(self, relayer: Address) -> int {
        self.stake_of(relayer) + self.pending_of(relayer)
    }
}

/// Initialization happens once: after `initialize` the escrow has a token, a
/// first initialization is authorized by its admin and binds the given token,
/// and every later one fails with `AlreadyInitialized` and changes nothing.
pub proof fn lemma_initialize_once(
    s: HandshakeState,
    admin: Address,
    token: Address,
    other_admin: Address,
    again: Address,
)
    ensures
        s.initialize(admin, token).0.token is Some,
        s.token is None ==> s.initialize(admin, token).1.authorizer == Some(admin),
        s.token is None ==> s.initialize(admin, token).1.result is Ok && s.initialize(admin, token).0.get_token()
            == Ok::<Address, EscrowError>(token),
        s.initialize(admin, token).0.initialize(other_admin, again) == (
            s.initialize(admin, token).0,
            Outcome::<EscrowError> { authorizer: None, result: Err(EscrowError::AlreadyInitialized) },
        ),
{
}

/// Before initialization, every call but `initialize` fails with
/// `NotInitialized`, demands no authorization and changes nothing.
pub proof fn lemma_uninitialized_rejects(
    s: HandshakeState,
    relayer: Address,
    amount: i128,
    now: u64,
)
    requires
        s.token is None,
    ensures
        s.deposit_stake(relayer, amount) == (
            s,
            Outcome::<EscrowError> { authorizer: None, result: Err(EscrowError::NotInitialized) },
        ),
        s.initiate_unlock(relayer, amount, now) == (
            s,
            Outcome::<EscrowError> { authorizer: None, result: Err(EscrowError::NotInitialized) },
        ),
        s.claim_unlock(relayer, now) == (
            s,
            Outcome::<EscrowError> { authorizer: None, result: Err(EscrowError::NotInitialized) },
        ),
{
}

/// Every operation keeps stakes non-negative and pending amounts positive.
pub proof fn lemma_operations_keep_well_formed(
    s: HandshakeState,
    admin: Address,
    token: Address,
    relayer: Address,
    amount: i128,
    now: u64,
)
    requires
        s.well_formed(),
    ensures
        s.initialize(admin, token).0.well_formed(),
        s.deposit_fits(relayer, amount) ==> s.deposit_stake(relayer, amount).0.well_formed(),
        s.initiate_unlock(relayer, amount, now).0.well_formed(),
        s.claim_unlock(relayer, now).0.well_formed(),
{
}

/// Holdings move only with tokens: a failed call changes nothing; a successful
/// deposit, unlock or claim is authorized by the relayer, changes what the
/// escrow holds for that relayer (stake plus pending withdrawal) by exactly the
/// tokens that came in or went out, and leaves the token and every other
/// relayer's stake and pending request as they were. Initiating an unlock moves
/// no tokens at all.
pub proof fn lemma_holdings_follow_transfers(
    s: HandshakeState,
    relayer: Address,
    amount: i128,
    now: u64,
    other: Address,
)
    requires
        s.well_formed(),
        other != relayer,
    ensures
        s.deposit_fits(relayer, amount) ==> ({
            let (s1, out) = s.deposit_stake(relayer, amount);
            match out.result {
                Ok(e) => {
                    &&& out.authorizer == Some(relayer)
                    &&& e.transfer matches Some(t) && t.relayer == relayer && Some(t.token)
                        == s.token
                    &&& s1.holding_of(relayer) == s.holding_of(relayer) + e.inflow()
                    &&& s1.stake_of(other) == s.stake_of(other)
                    &&& s1.get_unlock_request(other) == s.get_unlock_request(other)
                    &&& s1.get_unlock_request(relayer) == s.get_unlock_request(relayer)
                    &&& s1.token == s.token
                },
                Err(_) => s1 == s,
            }
        }),
        ({
            let (s1, out) = s.initiate_unlock(relayer, amount, now);
            match out.result {
                Ok(e) => {
                    &&& out.authorizer == Some(relayer)
                    &&& e.transfer is None
                    &&& s1.holding_of(relayer) == s.holding_of(relayer)
                    &&& s1.stake_of(other) == s.stake_of(other)
                    &&& s1.get_unlock_request(other) == s.get_unlock_request(other)
                    &&& s1.token == s.token
                },
                Err(_) => s1 == s,
            }
        }),
        ({
            let (s1, out) = s.claim_unlock(relayer, now);
            match out.result {
                Ok(e) => {
                    &&& out.authorizer == Some(relayer)
                    &&& e.transfer matches Some(t) && t.relayer == relayer && Some(t.token)
                        == s.token
                    &&& s1.holding_of(relayer) == s.holding_of(relayer) + e.inflow()
                    &&& s1.stake_of(relayer) == s.stake_of(relayer)
                    &&& s1.stake_of(other) == s.stake_of(other)
                    &&& s1.get_unlock_request(other) == s.get_unlock_request(other)
                    &&& s1.token == s.token
                },
                Err(_) => s1 == s,
            }
        }),
{
}

/// An unlock takes out at most the stake: it succeeds exactly when the escrow is
/// initialized, the amount is positive and at most the stake, and no request is
/// pending; it then queues exactly that amount, claimable from
/// `now + COOLDOWN_SECONDS` on.
pub proof fn lemma_unlock_bounded_by_stake(
    s: HandshakeState,
    relayer: Address,
    amount: i128,
    now: u64,
)
    requires
        s.well_formed(),
        s.unlock_time_fits(relayer, amount, now),
    ensures
        s.initiate_unlock(relayer, amount, now).1.result is Ok <==> s.unlock_allowed(
            relayer,
            amount,
        ),
        s.unlock_allowed(relayer, amount) ==> s.initiate_unlock(relayer, amount, now).0.get_unlock_request(
            relayer,
        ) == Some(UnlockRequest { amount, unlock_time: (now + COOLDOWN_SECONDS) as u64 }),
        s.unlock_allowed(relayer, amount) ==> s.initiate_unlock(relayer, amount, now).0.stake_of(
            relayer,
        ) == s.stake_of(relayer) - amount,
{
}

/// A relayer has at most one pending withdrawal: while one is pending, a new
/// unlock fails with `PendingUnlockExists` and changes nothing.
pub proof fn lemma_single_pending_unlock(
    s: HandshakeState,
    relayer: Address,
    amount: i128,
    now: u64,
)
    requires
        s.token is Some,
        amount > 0,
        s.unlocks.dom().contains(relayer),
    ensures
        s.initiate_unlock(relayer, amount, now) == (
            s,
            Outcome::<EscrowError> {
                authorizer: Some(relayer),
                result: Err(EscrowError::PendingUnlockExists),
            },
        ),
{
}

/// The cooldown holds: once an unlock initiated at `start` has succeeded, a
/// claim at time `now` succeeds exactly when `now >= start + COOLDOWN_SECONDS`
/// (so the boundary itself is enough), and it then sends out exactly the
/// unlocked amount and leaves no request pending.
pub proof fn lemma_claim_after_cooldown(
    s: HandshakeState,
    relayer: Address,
    amount: i128,
    start: u64,
    now: u64,
)
    requires
        s.well_formed(),
        s.unlock_allowed(relayer, amount),
        s.unlock_time_fits(relayer, amount, start),
    ensures
        ({
            let s1 = s.initiate_unlock(relayer, amount, start).0;
            let (s2, out) = s1.claim_unlock(relayer, now);
            &&& out.result is Ok <==> now >= start + COOLDOWN_SECONDS
            &&& !(now >= start + COOLDOWN_SECONDS) ==> out.result == Err::<Effects, EscrowError>(
                EscrowError::CooldownNotElapsed,
            )
            &&& out.result is Ok ==> {
                &&& out.result->Ok_0.inflow() == -(amount as int)
                &&& s2.get_unlock_request(relayer) is None
                &&& s2.stake_of(relayer) == s.stake_of(relayer) - amount
            }
        }),
{
}

/// The whole handshake: depositing, unlocking part of the stake and claiming it
/// after the cooldown sends back exactly the unlocked part, leaves the rest
/// staked and nothing pending.
pub proof fn lemma_deposit_unlock_claim(
    s: HandshakeState,
    relayer: Address,
    deposit: i128,
    unlock: i128,
    start: u64,
    now: u64,
)
    requires
        s.well_formed(),
        s.token is Some,
        !s.unlocks.dom().contains(relayer),
        0 < unlock <= deposit,
        s.deposit_fits(relayer, deposit),
        start + COOLDOWN_SECONDS <= now,
    ensures
        ({
            let s1 = s.deposit_stake(relayer, deposit).0;
            let s2 = s1.initiate_unlock(relayer, unlock, start).0;
            let (s3, out) = s2.claim_unlock(relayer, now);
            &&& out.result is Ok
            &&& out.result->Ok_0.transfer == Some(
                Transfer {
                    token: s.token->Some_0,
                    relayer,
                    amount: unlock,
                    direction: Direction::OutOfEscrow,
                },
            )
            &&& s3.stake_of(relayer) == s.stake_of(relayer) + deposit - unlock
            &&& s3.get_unlock_request(relayer) is None
        }),
{
}

impl HandshakeState {
    /// What the escrow holds for the given relayers, added up.
    pub open spec fn total_held(self, relayers: Set<Address>) -> int {
        sum_over(relayers, |r: Address| self.holding_of(r))
    }
}

/// A freshly deployed escrow holds nothing for anyone.
pub proof fn lemma_deployed_total_is_zero(relayers: Set<Address>)
    requires
        relayers.finite(),
    ensures
        HandshakeState::deployed().total_held(relayers) == 0,
{
    let s = HandshakeState::deployed();
    lemma_sum_zero(relayers, |r: Address| s.holding_of(r));
}

/// The escrow's token balance and what it owes move together: over any finite
/// set of relayers that includes the caller, a deposit, unlock or claim changes
/// the total of stakes and pending withdrawals by exactly the tokens that
/// entered or left the escrow, and a failed call changes nothing. Over whole
/// histories this gives `lemma_holdings_covered_by_balance`.
pub proof fn lemma_total_follows_transfers(
    s: HandshakeState,
    relayer: Address,
    amount: i128,
    now: u64,
    relayers: Set<Address>,
)
    requires
        s.well_formed(),
        relayers.finite(),
        relayers.contains(relayer),
    ensures
        s.deposit_fits(relayer, amount) ==> ({
            let (s1, out) = s.deposit_stake(relayer, amount);
            s1.total_held(relayers) == s.total_held(relayers) + match out.result {
                Ok(e) => e.inflow(),
                Err(_) => 0,
            }
        }),
        ({
            let (s1, out) = s.initiate_unlock(relayer, amount, now);
            s1.total_held(relayers) == s.total_held(relayers) + match out.result {
                Ok(e) => e.inflow(),
                Err(_) => 0,
            }
        }),
        ({
            let (s1, out) = s.claim_unlock(relayer, now);
            s1.total_held(relayers) == s.total_held(relayers) + match out.result {
                Ok(e) => e.inflow(),
                Err(_) => 0,
            }
        }),
{
    lemma_holdings_follow_transfers_everywhere(s, relayer, amount, now);
    let f = |r: Address| s.holding_of(r);
    let s1 = s.deposit_stake(relayer, amount).0;
    lemma_sum_single_change(relayers, f, |r: Address| s1.holding_of(r), relayer);
    let s2 = s.initiate_unlock(relayer, amount, now).0;
    lemma_sum_single_change(relayers, f, |r: Address| s2.holding_of(r), relayer);
    let s3 = s.claim_unlock(relayer, now).0;
    lemma_sum_single_change(relayers, f, |r: Address| s3.holding_of(r), relayer);
}

proof fn lemma_holdings_follow_transfers_everywhere(
    s: HandshakeState,
    relayer: Address,
    amount: i128,
    now: u64,
)
    requires
        s.well_formed(),
    ensures
        forall|other: Address|
            other != relayer ==> #[trigger] s.deposit_stake(relayer, amount).0.holding_of(other)
                == s.holding_of(other),
        forall|other: Address|
            other != relayer ==> #[trigger] s.initiate_unlock(relayer, amount, now).0.holding_of(
                other,
            ) == s.holding_of(other),
        forall|other: Address|
            other != relayer ==> #[trigger] s.claim_unlock(relayer, now).0.holding_of(other)
                == s.holding_of(other),
{
    assert forall|other: Address| other != relayer implies #[trigger] s.deposit_stake(
        relayer,
        amount,
    ).0.holding_of(other) == s.holding_of(other) by {
        lemma_holdings_follow_transfers(s, relayer, amount, now, other);
    }
    assert forall|other: Address| other != relayer implies #[trigger] s.initiate_unlock(
        relayer,
        amount,
        now,
    ).0.holding_of(other) == s.holding_of(other) by {
        lemma_holdings_follow_transfers(s, relayer, amount, now, other);
    }
    assert forall|other: Address| other != relayer implies #[trigger] s.claim_unlock(
        relayer,
        now,
    ).0.holding_of(other) == s.holding_of(other) by {
        lemma_holdings_follow_transfers(s, relayer, amount, now, other);
    }
}

/// Something that happens to the escrow: one of its calls that the host
/// completed, at the ledger time the call carries, or tokens sent to the
/// escrow's account from outside its calls. An invocation that the host aborts
/// (a refused authorization, a failed transfer, an overflow) leaves no trace
/// and is not part of a history.
pub ghost enum HandshakeStep {
    Initialize { admin: Address, token: Address },
    Deposit { relayer: Address, amount: i128 },
    InitiateUnlock { relayer: Address, amount: i128, now: u64 },
    ClaimUnlock { relayer: Address, now: u64 },
    Donation { amount: nat },
}

impl HandshakeState {
    /// The state after `step`, whether the step was a call of the escrow that
    /// succeeded, and how much the escrow's token balance grows by it.
    pub open spec fn after(self, step: HandshakeStep) -> (HandshakeState, bool, int) {
        match step {
            HandshakeStep::Initialize { admin, token } => {
                let (s1, out) = self.initialize(admin, token);
                (s1, out.result is Ok, 0)
            },
            HandshakeStep::Deposit { relayer, amount } => if self.deposit_fits(relayer, amount) {
                let (s1, out) = self.deposit_stake(relayer, amount);
                (s1, out.result is Ok, match out.result { Ok(e) => e.inflow(), Err(_) => 0 })
            } else {
                (self, false, 0)
            },
            HandshakeStep::InitiateUnlock { relayer, amount, now } => if self.unlock_time_fits(
                relayer,
                amount,
                now,
            ) {
                let (s1, out) = self.initiate_unlock(relayer, amount, now);
                (s1, out.result is Ok, match out.result { Ok(e) => e.inflow(), Err(_) => 0 })
            } else {
                (self, false, 0)
            },
            HandshakeStep::ClaimUnlock { relayer, now } => {
                let (s1, out) = self.claim_unlock(relayer, now);
                (s1, out.result is Ok, match out.result { Ok(e) => e.inflow(), Err(_) => 0 })
            },
            HandshakeStep::Donation { amount } => (self, false, amount as int),
        }
    }
}

/// The state of a deployed escrow after `history`, and the escrow's token balance.
pub open spec fn handshake_after(history: Seq<HandshakeStep>) -> (HandshakeState, int)
    decreases history.len(),
{
    if history.len() == 0 {
        (HandshakeState::deployed(), 0)
    } else {
        let (s, balance) = handshake_after(history.drop_last());
        let (s1, _, change) = s.after(history.last());
        (s1, balance + change)
    }
}

/// The tokens sent to the escrow from outside its calls in `history`.
pub open spec fn donated(history: Seq<HandshakeStep>) -> int
    decreases history.len(),
{
    if history.len() == 0 {
        0
    } else {
        donated(history.drop_last()) + match history.last() {
            HandshakeStep::Donation { amount } => amount as int,
            _ => 0,
        }
    }
}

/// Whether the last step of `history` is a successful unlock by `relayer`.
pub open spec fn ends_with_unlock_by(history: Seq<HandshakeStep>, relayer: Address) -> bool {
    history.len() > 0 && history.last() is InitiateUnlock && history.last()->InitiateUnlock_relayer
        == relayer && handshake_after(history.drop_last()).0.after(history.last()).1
}

/// Whether the last step of `history` is a successful claim by `relayer`.
pub open spec fn ends_with_claim_by(history: Seq<HandshakeStep>, relayer: Address) -> bool {
    history.len() > 0 && history.last() is ClaimUnlock && history.last()->ClaimUnlock_relayer
        == relayer && handshake_after(history.drop_last()).0.after(history.last()).1
}

/// What the history leaves pending for `relayer`: the request made by its last
/// successful unlock (`now + COOLDOWN_SECONDS` after the time of that call),
/// unless one of its claims succeeded after it.
pub open spec fn last_unlock(history: Seq<HandshakeStep>, relayer: Address) -> Option<UnlockRequest>
    decreases history.len(),
{
    if history.len() == 0 {
        None
    } else if ends_with_unlock_by(history, relayer) {
        Some(
            UnlockRequest {
                amount: history.last()->InitiateUnlock_amount,
                unlock_time: (history.last()->InitiateUnlock_now + COOLDOWN_SECONDS) as u64,
            },
        )
    } else if ends_with_claim_by(history, relayer) {
        None
    } else {
        last_unlock(history.drop_last(), relayer)
    }
}

/// How many unlocks of `relayer` in `history` succeeded.
pub open spec fn unlocks_started(history: Seq<HandshakeStep>, relayer: Address) -> nat
    decreases history.len(),
{
    if history.len() == 0 {
        0
    } else {
        unlocks_started(history.drop_last(), relayer) + if ends_with_unlock_by(history, relayer) {
            1nat
        } else {
            0nat
        }
    }
}

/// How many claims of `relayer` in `history` succeeded, each of them paying out.
pub open spec fn unlocks_claimed(history: Seq<HandshakeStep>, relayer: Address) -> nat
    decreases history.len(),
{
    if history.len() == 0 {
        0
    } else {
        unlocks_claimed(history.drop_last(), relayer) + if ends_with_claim_by(history, relayer) {
            1nat
        } else {
            0nat
        }
    }
}

/// Adding a relayer that holds nothing to a set leaves the total unchanged.
proof fn lemma_total_with_unheld(s: HandshakeState, relayers: Set<Address>, r: Address)
    requires
        relayers.finite(),
        !s.stakes.dom().contains(r),
        !s.unlocks.dom().contains(r),
    ensures
        s.total_held(relayers.insert(r)) == s.total_held(relayers),
{
    if !relayers.contains(r) {
        lemma_sum_remove(relayers.insert(r), |a: Address| s.holding_of(a), r);
        assert(relayers.insert(r).remove(r) =~= relayers);
    } else {
        assert(relayers.insert(r) =~= relayers);
    }
}

proof fn lemma_donated_nonnegative(history: Seq<HandshakeStep>)
    ensures
        donated(history) >= 0,
    decreases history.len(),
{
    if history.len() > 0 {
        lemma_donated_nonnegative(history.drop_last());
    }
}

/// In every state the escrow reaches, whatever happened since it was
/// deployed: no stake is negative, every pending amount is positive, finitely
/// many relayers have a stake, every relayer with a pending request has a stake
/// entry, and the stakes and pending withdrawals of all relayers add up to
/// exactly the escrow's token balance minus what was sent to it from outside,
/// so never to more than the balance.
pub proof fn lemma_holdings_covered_by_balance(history: Seq<HandshakeStep>)
    ensures
        ({
            let (s, balance) = handshake_after(history);
            &&& s.well_formed()
            &&& s.stakes.dom().finite()
            &&& s.unlocks.dom().subset_of(s.stakes.dom())
            &&& s.total_held(s.stakes.dom()) + donated(history) == balance
            &&& s.total_held(s.stakes.dom()) <= balance
        }),
    decreases history.len(),
{
    if history.len() == 0 {
        assert(HandshakeState::deployed().stakes.dom() =~= Set::empty());
        lemma_deployed_total_is_zero(Set::empty());
    } else {
        let prefix = history.drop_last();
        lemma_holdings_covered_by_balance(prefix);
        lemma_donated_nonnegative(prefix);
        let (s, balance) = handshake_after(prefix);
        let k0 = s.stakes.dom();
        let (s1, ok, change) = s.after(history.last());
        let k1 = s1.stakes.dom();
        match history.last() {
            HandshakeStep::Initialize { admin, token } => {
                lemma_operations_keep_well_formed(s, admin, token, token, 0, 0);
                lemma_sum_congruent(
                    k0,
                    |r: Address| s.holding_of(r),
                    |r: Address| s1.holding_of(r),
                );
            },
            HandshakeStep::Deposit { relayer, amount } => {
                if s.deposit_fits(relayer, amount) {
                    lemma_operations_keep_well_formed(s, relayer, relayer, relayer, amount, 0);
                    if ok {
                        assert(k1 =~= k0.insert(relayer));
                        lemma_total_follows_transfers(s, relayer, amount, 0, k1);
                        if !k0.contains(relayer) {
                            lemma_total_with_unheld(s, k0, relayer);
                        } else {
                            assert(k0.insert(relayer) =~= k0);
                        }
                    }
                }
            },
            HandshakeStep::InitiateUnlock { relayer, amount, now } => {
                if s.unlock_time_fits(relayer, amount, now) {
                    lemma_operations_keep_well_formed(s, relayer, relayer, relayer, amount, now);
                    if ok {
                        assert(k1 =~= k0.insert(relayer));
                        lemma_total_follows_transfers(s, relayer, amount, now, k1);
                        if !k0.contains(relayer) {
                            lemma_total_with_unheld(s, k0, relayer);
                        } else {
                            assert(k0.insert(relayer) =~= k0);
                        }
                    }
                }
            },
            HandshakeStep::ClaimUnlock { relayer, now } => {
                lemma_operations_keep_well_formed(s, relayer, relayer, relayer, 0, now);
                if ok {
                    assert(k1 =~= k0);
                    lemma_total_follows_transfers(s, relayer, 0, now, k0);
                }
            },
            HandshakeStep::Donation { amount } => {},
        }
    }
}

/// A pending request is what the relayer's last successful unlock made: after
/// any history, the request pending for `relayer` is the one its last
/// successful unlock created, with `unlock_time` the ledger time of that call
/// plus the cooldown, unless a successful claim came after it; then nothing is
/// pending. Each unlock pays out at most once: the successful claims of a
/// relayer are exactly its successful unlocks, less the one still pending.
pub proof fn lemma_pending_is_last_unlock(history: Seq<HandshakeStep>, relayer: Address)
    ensures
        handshake_after(history).0.get_unlock_request(relayer) == last_unlock(history, relayer),
        unlocks_started(history, relayer) == unlocks_claimed(history, relayer) + if last_unlock(
            history,
            relayer,
        ) is Some {
            1nat
        } else {
            0nat
        },
    decreases history.len(),
{
    if history.len() > 0 {
        let prefix = history.drop_last();
        lemma_pending_is_last_unlock(prefix, relayer);
        lemma_holdings_covered_by_balance(prefix);
        let s = handshake_after(prefix).0;
        let (s1, ok, _) = s.after(history.last());
        match history.last() {
            HandshakeStep::Initialize { admin, token } => {},
            HandshakeStep::Deposit { relayer: r, amount } => {
                if s.deposit_fits(r, amount) && r != relayer {
                    lemma_holdings_follow_transfers(s, r, amount, 0, relayer);
                }
            },
            HandshakeStep::InitiateUnlock { relayer: r, amount, now } => {
                if s.unlock_time_fits(r, amount, now) {
                    if r != relayer {
                        lemma_holdings_follow_transfers(s, r, amount, now, relayer);
                    } else if ok {
                        lemma_unlock_bounded_by_stake(s, r, amount, now);
                    }
                }
            },
            HandshakeStep::ClaimUnlock { relayer: r, now } => {
                if r != relayer {
                    lemma_holdings_follow_transfers(s, r, 0, now, relayer);
                }
            },
            HandshakeStep::Donation { amount } => {},
        }
    }
}

/// Once a relayer's withdrawal has been claimed, and no unlock of it has
/// succeeded since (or none ever did), a claim finds nothing to pay: it fails
/// with `NoUnlockRequest` and moves no tokens.
pub proof fn lemma_nothing_left_to_claim(history: Seq<HandshakeStep>, relayer: Address, now: u64)
    requires
        handshake_after(history).0.token is Some,
        last_unlock(history, relayer) is None,
    ensures
        handshake_after(history).0.claim_unlock(relayer, now) == (
            handshake_after(history).0,
            Outcome::<EscrowError> {
                authorizer: Some(relayer),
                result: Err(EscrowError::NoUnlockRequest),
            },
        ),
{
    lemma_pending_is_last_unlock(history, relayer);
}

/// What the queries answer: the token the escrow was bound to, or
/// `NotInitialized`; a relayer that never deposited has stake zero; the pending
/// request is the stored one, if any.
pub proof fn lemma_queries(s: HandshakeState, relayer: Address)
    ensures
        s.token matches Some(t) ==> s.get_token() == Ok::<Address, EscrowError>(t),
        s.token is None ==> s.get_token() == Err::<Address, EscrowError>(
            EscrowError::NotInitialized,
        ),
        !s.stakes.dom().contains(relayer) ==> s.stake_of(relayer) == 0,
        s.stakes.dom().contains(relayer) ==> s.stake_of(relayer) == s.stakes[relayer],
        !s.unlocks.dom().contains(relayer) ==> s.get_unlock_request(relayer) is None,
        s.unlocks.dom().contains(relayer) ==> s.get_unlock_request(relayer) == Some(
            s.unlocks[relayer],
        ),
        HandshakeState::deployed().well_formed(),
        HandshakeState::deployed().stake_of(relayer) == 0,
        HandshakeState::deployed().get_unlock_request(relayer) is None,
        HandshakeState::deployed().token is None,
{
}

/// What `initialize` does, in terms of its inputs: on an escrow without a token
/// it asks for the admin's authorization, binds the token, publishes `Init`
/// and leaves stakes and requests alone; on an escrow with a token it fails
/// with `AlreadyInitialized`, asks for no authorization and changes nothing.
pub proof fn lemma_initialize_outcomes(s: HandshakeState, admin: Address, token: Address)
    ensures
        s.token is Some ==> s.initialize(admin, token) == (
            s,
            Outcome::<EscrowError> { authorizer: None, result: Err(EscrowError::AlreadyInitialized) },
        ),
        s.token is None ==> ({
            let (s1, out) = s.initialize(admin, token);
            &&& out.authorizer == Some(admin)
            &&& out.result == Ok::<Effects, EscrowError>(
                Effects { transfer: None, event: Event::Init { token } },
            )
            &&& s1.token == Some(token)
            &&& s1.get_token() == Ok::<Address, EscrowError>(token)
            &&& s1.stakes == s.stakes
            &&& s1.unlocks == s.unlocks
        }),
{
}

/// What a deposit does, in terms of its inputs. The overflow guard holds for
/// every amount that keeps the stake within an `i128`; without a token the
/// deposit fails with `NotInitialized`, with a non-positive amount with
/// `InvalidAmount`, neither asking for authorization nor changing anything;
/// otherwise it succeeds whether or not a withdrawal is pending, asks for the
/// relayer's authorization, moves exactly `amount` of the escrow's token from
/// the relayer into the escrow, publishes `Deposit`, raises the relayer's
/// stake by exactly `amount`, and leaves the token, every pending request and
/// every other relayer's stake alone.
pub proof fn lemma_deposit_stake_outcomes(
    s: HandshakeState,
    relayer: Address,
    amount: i128,
    other: Address,
)
    ensures
        s.stake_of(relayer) + amount <= i128::MAX ==> s.deposit_fits(relayer, amount),
        s.token is None ==> s.deposit_stake(relayer, amount) == (
            s,
            Outcome::<EscrowError> { authorizer: None, result: Err(EscrowError::NotInitialized) },
        ),
        s.token is Some && amount <= 0 ==> s.deposit_stake(relayer, amount) == (
            s,
            Outcome::<EscrowError> { authorizer: None, result: Err(EscrowError::InvalidAmount) },
        ),
        s.token is Some && amount > 0 && s.stake_of(relayer) + amount <= i128::MAX ==> ({
            let (s1, out) = s.deposit_stake(relayer, amount);
            &&& out.authorizer == Some(relayer)
            &&& out.result == Ok::<Effects, EscrowError>(
                Effects {
                    transfer: Some(
                        Transfer {
                            token: s.token->Some_0,
                            relayer,
                            amount,
                            direction: Direction::IntoEscrow,
                        },
                    ),
                    event: Event::Deposit { relayer, amount },
                },
            )
            &&& s1.stake_of(relayer) == s.stake_of(relayer) + amount
            &&& s1.get_unlock_request(relayer) == s.get_unlock_request(relayer)
            &&& other != relayer ==> s1.stake_of(other) == s.stake_of(other)
            &&& s1.get_unlock_request(other) == s.get_unlock_request(other)
            &&& s1.token == s.token
        }),
{
}

/// What an unlock does, in terms of its inputs. The overflow guard holds at
/// every ledger time `now` with `now + COOLDOWN_SECONDS` within a `u64`. Without
/// a token the unlock fails with `NotInitialized`, with a non-positive amount
/// with `InvalidAmount`, neither asking for authorization nor changing
/// anything. Otherwise it asks for the relayer's authorization and fails,
/// changing nothing, with `PendingUnlockExists` while a request is pending and
/// with `InsufficientStake` when the amount exceeds the stake. Otherwise it
/// succeeds: no tokens move, `Unlock` is published, the stake drops by exactly
/// `amount`, the pending request becomes `amount` claimable from
/// `now + COOLDOWN_SECONDS`, and the token and every other relayer's stake and
/// request are left alone.
pub proof fn lemma_initiate_unlock_outcomes(
    s: HandshakeState,
    relayer: Address,
    amount: i128,
    now: u64,
    other: Address,
)
    ensures
        now + COOLDOWN_SECONDS <= u64::MAX ==> s.unlock_time_fits(relayer, amount, now),
        s.token is None ==> s.initiate_unlock(relayer, amount, now) == (
            s,
            Outcome::<EscrowError> { authorizer: None, result: Err(EscrowError::NotInitialized) },
        ),
        s.token is Some && amount <= 0 ==> s.initiate_unlock(relayer, amount, now) == (
            s,
            Outcome::<EscrowError> { authorizer: None, result: Err(EscrowError::InvalidAmount) },
        ),
        s.token is Some && amount > 0 && s.get_unlock_request(relayer) is Some
            ==> s.initiate_unlock(relayer, amount, now) == (
            s,
            Outcome::<EscrowError> {
                authorizer: Some(relayer),
                result: Err(EscrowError::PendingUnlockExists),
            },
        ),
        s.token is Some && amount > 0 && s.get_unlock_request(relayer) is None && amount
            > s.stake_of(relayer) ==> s.initiate_unlock(relayer, amount, now) == (
            s,
            Outcome::<EscrowError> {
                authorizer: Some(relayer),
                result: Err(EscrowError::InsufficientStake),
            },
        ),
        s.token is Some && s.get_unlock_request(relayer) is None && 0 < amount <= s.stake_of(
            relayer,
        ) && now + COOLDOWN_SECONDS <= u64::MAX ==> ({
            let (s1, out) = s.initiate_unlock(relayer, amount, now);
            let unlock_time = (now + COOLDOWN_SECONDS) as u64;
            &&& out.authorizer == Some(relayer)
            &&& out.result == Ok::<Effects, EscrowError>(
                Effects { transfer: None, event: Event::Unlock { relayer, amount, unlock_time } },
            )
            &&& s1.stake_of(relayer) == s.stake_of(relayer) - amount
            &&& s1.get_unlock_request(relayer) == Some(UnlockRequest { amount, unlock_time })
            &&& unlock_time == now + COOLDOWN_SECONDS
            &&& other != relayer ==> s1.stake_of(other) == s.stake_of(other)
            &&& other != relayer ==> s1.get_unlock_request(other) == s.get_unlock_request(other)
            &&& s1.token == s.token
        }),
{
}

/// What a claim does, in terms of its inputs: without a token it fails with
/// `NotInitialized`, asking for no authorization and changing nothing.
/// Otherwise it asks for the relayer's authorization and fails, changing
/// nothing, with `NoUnlockRequest` when nothing is pending and with
/// `CooldownNotElapsed` while `now` is before the request's unlock time.
/// From the unlock time on it succeeds: it sends exactly the requested amount
/// of the escrow's token from the escrow to the relayer, publishes `Claim`,
/// drops the request, and leaves the token, the relayer's stake and every
/// other relayer's stake and request alone.
pub proof fn lemma_claim_unlock_outcomes(
    s: HandshakeState,
    relayer: Address,
    now: u64,
    other: Address,
)
    ensures
        s.token is None ==> s.claim_unlock(relayer, now) == (
            s,
            Outcome::<EscrowError> { authorizer: None, result: Err(EscrowError::NotInitialized) },
        ),
        s.token is Some && s.get_unlock_request(relayer) is None ==> s.claim_unlock(relayer, now)
            == (
            s,
            Outcome::<EscrowError> {
                authorizer: Some(relayer),
                result: Err(EscrowError::NoUnlockRequest),
            },
        ),
        s.token is Some ==> (s.get_unlock_request(relayer) matches Some(q) ==> now < q.unlock_time
            ==> s.claim_unlock(relayer, now) == (
            s,
            Outcome::<EscrowError> {
                authorizer: Some(relayer),
                result: Err(EscrowError::CooldownNotElapsed),
            },
        )),
        s.token is Some ==> (s.get_unlock_request(relayer) matches Some(q) ==> now >= q.unlock_time
            ==> ({
            let (s1, out) = s.claim_unlock(relayer, now);
            &&& out.authorizer == Some(relayer)
            &&& out.result == Ok::<Effects, EscrowError>(
                Effects {
                    transfer: Some(
                        Transfer {
                            token: s.token->Some_0,
                            relayer,
                            amount: q.amount,
                            direction: Direction::OutOfEscrow,
                        },
                    ),
                    event: Event::Claim { relayer, amount: q.amount },
                },
            )
            &&& s1.get_unlock_request(relayer) is None
            &&& s1.stake_of(relayer) == s.stake_of(relayer)
            &&& other != relayer ==> s1.stake_of(other) == s.stake_of(other)
            &&& other != relayer ==> s1.get_unlock_request(other) == s.get_unlock_request(other)
            &&& s1.token == s.token
        })),
{
}

} // verus!
