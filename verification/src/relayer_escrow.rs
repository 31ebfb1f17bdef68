//! Relayer staking collateral escrow: relayers deposit a token as collateral
//! and withdraw it again, within their staked balance.
use vstd::prelude::*;

use crate::address::Address;
use crate::address_map::AddressMap;
use crate::effects::{Direction, Effects, Event, Outcome, Transfer};
use crate::totals::{lemma_sum_congruent, lemma_sum_remove, lemma_sum_single_change, lemma_sum_zero, sum_over};

verus! {

/// The ways a call of the escrow can fail.
#[derive(Clone, Copy, Debug, PartialEq, Eq)]
pub enum Error {
    /// The escrow has already been initialized.
    AlreadyInitialized,
    /// The escrow has not been initialized yet.
    NotInitialized,
    /// The amount must be greater than zero.
    InvalidAmount,
    /// The withdrawal exceeds the relayer's staked balance.
    InsufficientBalance,
}

impl Error {
    /// The contract error code of the variant.
    pub open spec fn spec_code(self) -> u32 {
        match self {
            Error::AlreadyInitialized => 1,
            Error::NotInitialized => 2,
            Error::InvalidAmount => 3,
            Error::InsufficientBalance => 4,
        }
    }

    /// The contract error code of the variant.
    pub fn code(&self) -> (c: u32)
        ensures
            c == self.spec_code(),
    {
        match self {
            Error::AlreadyInitialized => 1,
            Error::NotInitialized => 2,
            Error::InvalidAmount => 3,
            Error::InsufficientBalance => 4,
        }
    }
}

/// The state of the escrow: the token it accepts, once initialized, and the
/// stored stake of each relayer that ever deposited.
pub ghost struct RelayerEscrowState {
    pub token: Option<Address>,
    pub stakes: Map<Address, i128>,
}

impl RelayerEscrowState {
    /// The state of a freshly deployed escrow.
    pub open spec fn deployed() -> RelayerEscrowState {
        RelayerEscrowState { token: None, stakes: Map::empty() }
    }

    /// No stored stake is negative.
    pub open spec fn well_formed(self) -> bool {
        forall|r: Address| #[trigger] self.stakes.dom().contains(r) ==> self.stakes[r] >= 0
    }

    /// The staked balance of `relayer`; zero when it never deposited.
    pub open spec fn stake_of(self, relayer: Address) -> i128 {
        if self.stakes.dom().contains(relayer) {
            self.stakes[relayer]
        } else {
            0
        }
    }

    /// The token accepted by the escrow.
    pub open spec fn get_token(self) -> Result<Address, Error> {
        match self.token {
            Some(t) => Ok(t),
            None => Err(Error::NotInitialized),
        }
    }

    /// Binds the escrow to `token`, once, with the authorization of `admin`.
    pub open spec fn initialize(self, admin: Address, token: Address) -> (RelayerEscrowState, Outcome<Error>) {
        if self.token is Some {
            (self, Outcome { authorizer: None, result: Err(Error::AlreadyInitialized) })
        } else {
            (
                RelayerEscrowState { token: Some(token), ..self },
                Outcome {
                    authorizer: Some(admin),
                    result: Ok(Effects { transfer: None, event: Event::Init { token } }),
                },
            )
        }
    }

    /// Whether the new stake of a deposit fits in an `i128`, where the deposit gets that far.
    pub open spec fn deposit_fits(self, relayer: Address, amount: i128) -> bool {
        self.token is Some && amount > 0 ==> self.stake_of(relayer) + amount <= i128::MAX
    }

    /// `relayer` moves `amount` tokens into the escrow and adds them to its stake.
    pub open spec fn deposit_stake(self, relayer: Address, amount: i128) -> (
        RelayerEscrowState,
        Outcome<Error>,
    ) {
        match self.token {
            None => (self, Outcome { authorizer: None, result: Err(Error::NotInitialized) }),
            Some(token) => if amount <= 0 {
                (self, Outcome { authorizer: None, result: Err(Error::InvalidAmount) })
            } else {
                (
                    RelayerEscrowState {
                        stakes: self.stakes.insert(
                            relayer,
                            (self.stake_of(relayer) + amount) as i128,
                        ),
                        ..self
                    },
                    Outcome {
                        authorizer: Some(relayer),
                        result: Ok(
                            Effects {
                                transfer: Some(
                                    Transfer {
                                        token,
                                        relayer,
                                        amount,
                                        direction: Direction::IntoEscrow,
                                    },
                                ),
                                event: Event::Deposit { relayer, amount },
                            },
                        ),
                    },
                )
            },
        }
    }

    /// `relayer` takes `amount` of its stake back out of the escrow.
    pub open spec fn withdraw_stake(self, relayer: Address, amount: i128) -> (
        RelayerEscrowState,
        Outcome<Error>,
    ) {
        match self.token {
            None => (self, Outcome { authorizer: None, result: Err(Error::NotInitialized) }),
            Some(token) => if amount <= 0 {
                (self, Outcome { authorizer: None, result: Err(Error::InvalidAmount) })
            } else if amount > self.stake_of(relayer) {
                (self, Outcome { authorizer: Some(relayer), result: Err(Error::InsufficientBalance) })
            } else {
                (
                    RelayerEscrowState {
                        stakes: self.stakes.insert(
                            relayer,
                            (self.stake_of(relayer) - amount) as i128,
                        ),
                        ..self
                    },
                    Outcome {
                        authorizer: Some(relayer),
                        result: Ok(
                            Effects {
                                transfer: Some(
                                    Transfer {
                                        token,
                                        relayer,
                                        amount,
                                        direction: Direction::OutOfEscrow,
                                    },
                                ),
                                event: Event::Withdraw { relayer, amount },
                            },
                        ),
                    },
                )
            },
        }
    }
}

/// The relayer staking collateral escrow.
#[derive(Clone)]
pub struct RelayerStakingEscrow {
    token: Option<Address>,
    stakes: AddressMap<i128>,
}

impl View for RelayerStakingEscrow {
    type V = RelayerEscrowState;

    closed spec fn view(&self) -> RelayerEscrowState {
        RelayerEscrowState { token: self.token, stakes: self.stakes@ }
    }
}

impl RelayerStakingEscrow {
    /// The representation is sound and the state well formed.
    pub closed spec fn wf(&self) -> bool {
        self.stakes.wf() && self@.well_formed()
    }

    /// A freshly deployed escrow, not yet initialized.
    pub fn new() -> (e: Self)
        ensures
            e.wf(),
            e@ == RelayerEscrowState::deployed(),
    {
        RelayerStakingEscrow { token: None, stakes: AddressMap::new() }
    }

    /// Initializes the escrow with the token it will accept.
    ///
    /// Needs the authorization of `admin`, the party that sets the escrow up.
    /// Must be called exactly once; later calls fail with `AlreadyInitialized`.
    pub fn initialize(&mut self, admin: Address, token: Address) -> (out: Outcome<Error>)
        requires
            old(self).wf(),
        ensures
            final(self).wf(),
            (final(self)@, out) == old(self)@.initialize(admin, token),
    {
        if self.token.is_some() {
            return Outcome { authorizer: None, result: Err(Error::AlreadyInitialized) };
        }
        self.token = Some(token);
        assert(self@.stakes == old(self)@.stakes);
        Outcome {
            authorizer: Some(admin),
            result: Ok(Effects { transfer: None, event: Event::Init { token } }),
        }
    }

    /// Deposits `amount` tokens from `relayer` into the escrow.
    ///
    /// Needs the relayer's authorization; the tokens move from the relayer's
    /// account into the escrow's and are added to the relayer's stake.
    pub fn deposit_stake(&mut self, relayer: Address, amount: i128) -> (out: Outcome<Error>)
        requires
            old(self).wf(),
            old(self)@.deposit_fits(relayer, amount),
        ensures
            final(self).wf(),
            (final(self)@, out) == old(self)@.deposit_stake(relayer, amount),
    {
        let token = match self.token {
            Some(t) => t,
            None => {
                return Outcome { authorizer: None, result: Err(Error::NotInitialized) };
            },
        };
        if amount <= 0 {
            return Outcome { authorizer: None, result: Err(Error::InvalidAmount) };
        }
        let current = self.get_stake(relayer);
        self.stakes.insert(relayer, current + amount);
        proof {
            assert(self@ == old(self)@.deposit_stake(relayer, amount).0);
        }
        Outcome {
            authorizer: Some(relayer),
            result: Ok(
                Effects {
                    transfer: Some(
                        Transfer { token, relayer, amount, direction: Direction::IntoEscrow },
                    ),
                    event: Event::Deposit { relayer, amount },
                },
            ),
        }
    }

    /// Withdraws `amount` tokens from the escrow back to `relayer`.
    ///
    /// Needs the relayer's authorization; fails with `InsufficientBalance` when
    /// the relayer has less than `amount` staked.
    pub fn withdraw_stake(&mut self, relayer: Address, amount: i128) -> (out: Outcome<Error>)
        requires
            old(self).wf(),
        ensures
            final(self).wf(),
            (final(self)@, out) == old(self)@.withdraw_stake(relayer, amount),
    {
        let token = match self.token {
            Some(t) => t,
            None => {
                return Outcome { authorizer: None, result: Err(Error::NotInitialized) };
            },
        };
        if amount <= 0 {
            return Outcome { authorizer: None, result: Err(Error::InvalidAmount) };
        }
        let current = self.get_stake(relayer);
        if amount > current {
            return Outcome { authorizer: Some(relayer), result: Err(Error::InsufficientBalance) };
        }
        self.stakes.insert(relayer, current - amount);
        proof {
            assert(self@ == old(self)@.withdraw_stake(relayer, amount).0);
        }
        Outcome {
            authorizer: Some(relayer),
            result: Ok(
                Effects {
                    transfer: Some(
                        Transfer { token, relayer, amount, direction: Direction::OutOfEscrow },
                    ),
                    event: Event::Withdraw { relayer, amount },
                },
            ),
        }
    }

    /// A well-formed escrow is in a well-formed state.
    pub proof fn lemma_wf_well_formed(&self)
        requires
            self.wf(),
        ensures
            self@.well_formed(),
    {
    }

    /// Restores the token of an initialized escrow, as kept in the host's storage.
    pub fn load_token(&mut self, token: Address)
        requires
            old(self).wf(),
        ensures
            final(self).wf(),
            final(self)@ == (RelayerEscrowState { token: Some(token), ..old(self)@ }),
    {
        self.token = Some(token);
        assert(self@.stakes == old(self)@.stakes);
    }

    /// Restores the stored stake of `relayer`, as kept in the host's storage.
    pub fn load_stake(&mut self, relayer: Address, stake: i128)
        requires
            old(self).wf(),
            stake >= 0,
        ensures
            final(self).wf(),
            final(self)@ == (RelayerEscrowState {
                stakes: old(self)@.stakes.insert(relayer, stake),
                ..old(self)@
            }),
    {
        self.stakes.insert(relayer, stake);
    }

    /// Whether a deposit of `amount` by `relayer` keeps its stake within an `i128`,
    /// where the deposit gets that far.
    pub fn deposit_fits(&self, relayer: Address, amount: i128) -> (r: bool)
        requires
            self.wf(),
        ensures
            r == self@.deposit_fits(relayer, amount),
    {
        if self.token.is_none() || amount <= 0 {
            return true;
        }
        let current = self.get_stake(relayer);
        amount <= i128::MAX - current
    }

    /// The staked balance of `relayer`; zero when it never deposited.
    pub fn get_stake(&self, relayer: Address) -> (s: i128)
        requires
            self.wf(),
        ensures
            s == self@.stake_of(relayer),
            s >= 0,
    {
        match self.stakes.get(&relayer) {
            Some(s) => {
                assert(self@.stakes.dom().contains(relayer));
                s
            },
            None => 0,
        }
    }

    /// The token this escrow was initialized with.
    pub fn get_token(&self) -> (r: Result<Address, Error>)
        ensures
            r == self@.get_token(),
    {
        match self.token {
            Some(t) => Ok(t),
            None => Err(Error::NotInitialized),
        }
    }
}

/// Initialization happens once: whatever the state, after `initialize` the
/// escrow has a token, a first initialization is authorized by its admin and
/// binds the given token, and every later one fails with `AlreadyInitialized`
/// and changes nothing.
pub proof fn lemma_initialize_once(
    s: RelayerEscrowState,
    admin: Address,
    token: Address,
    other_admin: Address,
    again: Address,
)
    ensures
        s.initialize(admin, token).0.token is Some,
        s.token is None ==> s.initialize(admin, token).1.authorizer == Some(admin),
        s.token is None ==> s.initialize(admin, token).1.result is Ok && s.initialize(admin, token).0.get_token()
            == Ok::<Address, Error>(token),
        s.initialize(admin, token).0.initialize(other_admin, again) == (
            s.initialize(admin, token).0,
            Outcome::<Error> { authorizer: None, result: Err(Error::AlreadyInitialized) },
        ),
{
}

/// Before initialization, deposits and withdrawals fail with `NotInitialized`,
/// demand no authorization and change nothing.
pub proof fn lemma_uninitialized_rejects(s: RelayerEscrowState, relayer: Address, amount: i128)
    requires
        s.token is None,
    ensures
        s.deposit_stake(relayer, amount) == (
            s,
            Outcome::<Error> { authorizer: None, result: Err(Error::NotInitialized) },
        ),
        s.withdraw_stake(relayer, amount) == (
            s,
            Outcome::<Error> { authorizer: None, result: Err(Error::NotInitialized) },
        ),
{
}

/// A non-positive amount is refused with `InvalidAmount` before any
/// authorization is asked for, and changes nothing.
pub proof fn lemma_invalid_amount_rejected(s: RelayerEscrowState, relayer: Address, amount: i128)
    requires
        s.token is Some,
        amount <= 0,
    ensures
        s.deposit_stake(relayer, amount) == (
            s,
            Outcome::<Error> { authorizer: None, result: Err(Error::InvalidAmount) },
        ),
        s.withdraw_stake(relayer, amount) == (
            s,
            Outcome::<Error> { authorizer: None, result: Err(Error::InvalidAmount) },
        ),
{
}

/// Every operation keeps the stored stakes non-negative.
pub proof fn lemma_operations_keep_well_formed(
    s: RelayerEscrowState,
    admin: Address,
    token: Address,
    relayer: Address,
    amount: i128,
)
    requires
        s.well_formed(),
    ensures
        s.initialize(admin, token).0.well_formed(),
        s.deposit_fits(relayer, amount) ==> s.deposit_stake(relayer, amount).0.well_formed(),
        s.withdraw_stake(relayer, amount).0.well_formed(),
{
}

/// Stakes move with tokens: a failed deposit or withdrawal changes nothing; a
/// successful one is authorized by the relayer, moves tokens of the escrow's
/// token between that relayer and the escrow, changes that relayer's stake by
/// exactly the tokens that came in or went out, and leaves the token and every
/// other relayer's stake as they were.
pub proof fn lemma_stake_follows_transfers(
    s: RelayerEscrowState,
    relayer: Address,
    amount: i128,
    other: Address,
)
    requires
        s.well_formed(),
        s.deposit_fits(relayer, amount),
        other != relayer,
    ensures
        ({
            let (s1, out) = s.deposit_stake(relayer, amount);
            match out.result {
                Ok(e) => {
                    &&& out.authorizer == Some(relayer)
                    &&& e.transfer matches Some(t) && t.relayer == relayer && Some(t.token)
                        == s.token && t.amount == amount
                    &&& s1.stake_of(relayer) == s.stake_of(relayer) + e.inflow()
                    &&& s1.stake_of(other) == s.stake_of(other)
                    &&& s1.token == s.token
                },
                Err(_) => s1 == s,
            }
        }),
        ({
            let (s1, out) = s.withdraw_stake(relayer, amount);
            match out.result {
                Ok(e) => {
                    &&& out.authorizer == Some(relayer)
                    &&& e.transfer matches Some(t) && t.relayer == relayer && Some(t.token)
                        == s.token && t.amount == amount
                    &&& s1.stake_of(relayer) == s.stake_of(relayer) + e.inflow()
                    &&& s1.stake_of(other) == s.stake_of(other)
                    &&& s1.token == s.token
                },
                Err(_) => s1 == s,
            }
        }),
{
}

/// A withdrawal never takes out more than the relayer has staked: it succeeds
/// exactly when the escrow is initialized and `0 < amount <= stake`, and fails
/// with `InsufficientBalance` exactly when the amount is positive but above the stake.
pub proof fn lemma_withdraw_bounded_by_stake(s: RelayerEscrowState, relayer: Address, amount: i128)
    requires
        s.well_formed(),
    ensures
        s.withdraw_stake(relayer, amount).1.result is Ok <==> (s.token is Some && 0 < amount
            <= s.stake_of(relayer)),
        s.withdraw_stake(relayer, amount).1.result == Err::<Effects, Error>(
            Error::InsufficientBalance,
        ) <==> (s.token is Some && 0 < amount && amount > s.stake_of(relayer)),
        s.withdraw_stake(relayer, amount).0.stake_of(relayer) >= 0,
{
}

/// Withdrawing what was just deposited succeeds, returns the same tokens and
/// leaves every relayer's stake as it was before the deposit.
pub proof fn lemma_deposit_then_withdraw_restores(
    s: RelayerEscrowState,
    relayer: Address,
    amount: i128,
)
    requires
        s.well_formed(),
        s.token is Some,
        amount > 0,
        s.deposit_fits(relayer, amount),
    ensures
        ({
            let (s1, out1) = s.deposit_stake(relayer, amount);
            let (s2, out2) = s1.withdraw_stake(relayer, amount);
            &&& out1.result is Ok
            &&& out2.result is Ok
            &&& out2.result->Ok_0.inflow() == -(amount as int)
            &&& s2.token == s.token
            &&& forall|k: Address| #[trigger] s2.stake_of(k) == s.stake_of(k)
        }),
{
}

impl RelayerEscrowState {
    /// The stakes of the given relayers added up.
    pub open spec fn total_staked(self, relayers: Set<Address>) -> int {
        sum_over(relayers, |r: Address| self.stake_of(r) as int)
    }
}

/// A freshly deployed escrow holds no stake for anyone.
pub proof fn lemma_deployed_total_is_zero(relayers: Set<Address>)
    requires
        relayers.finite(),
    ensures
        RelayerEscrowState::deployed().total_staked(relayers) == 0,
{
    let s = RelayerEscrowState::deployed();
    lemma_sum_zero(relayers, |r: Address| s.stake_of(r) as int);
}

/// The escrow's token balance and the stakes it owes move together: over any
/// finite set of relayers that includes the caller, a deposit or withdrawal
/// changes the total stake by exactly the tokens that entered or left the
/// escrow, and a failed call changes nothing. Over whole histories this gives
/// `lemma_stakes_covered_by_balance`.
pub proof fn lemma_total_follows_transfers(
    s: RelayerEscrowState,
    relayer: Address,
    amount: i128,
    relayers: Set<Address>,
)
    requires
        s.well_formed(),
        relayers.finite(),
        relayers.contains(relayer),
    ensures
        s.deposit_fits(relayer, amount) ==> ({
            let (s1, out) = s.deposit_stake(relayer, amount);
            s1.total_staked(relayers) == s.total_staked(relayers) + match out.result {
                Ok(e) => e.inflow(),
                Err(_) => 0,
            }
        }),
        ({
            let (s1, out) = s.withdraw_stake(relayer, amount);
            s1.total_staked(relayers) == s.total_staked(relayers) + match out.result {
                Ok(e) => e.inflow(),
                Err(_) => 0,
            }
        }),
{
    let f = |r: Address| s.stake_of(r) as int;
    let s1 = s.deposit_stake(relayer, amount).0;
    let g1 = |r: Address| s1.stake_of(r) as int;
    lemma_sum_single_change(relayers, f, g1, relayer);
    let s2 = s.withdraw_stake(relayer, amount).0;
    let g2 = |r: Address| s2.stake_of(r) as int;
    lemma_sum_single_change(relayers, f, g2, relayer);
}

/// Something that happens to the escrow: one of its calls that the host
/// completed, or tokens sent to the escrow's account from outside its calls.
/// An invocation that the host aborts (a refused authorization, a failed
/// transfer, an overflowing stake) leaves no trace and is not part of a history.
pub ghost enum RelayerEscrowStep {
    Initialize { admin: Address, token: Address },
    Deposit { relayer: Address, amount: i128 },
    Withdraw { relayer: Address, amount: i128 },
    Donation { amount: nat },
}

impl RelayerEscrowState {
    /// The state after `step`, and how much the escrow's token balance grows by it.
    pub open spec fn after(self, step: RelayerEscrowStep) -> (RelayerEscrowState, int) {
        match step {
            RelayerEscrowStep::Initialize { admin, token } => (self.initialize(admin, token).0, 0),
            RelayerEscrowStep::Deposit { relayer, amount } => if self.deposit_fits(relayer, amount) {
                let (s1, out) = self.deposit_stake(relayer, amount);
                (s1, match out.result { Ok(e) => e.inflow(), Err(_) => 0 })
            } else {
                (self, 0)
            },
            RelayerEscrowStep::Withdraw { relayer, amount } => {
                let (s1, out) = self.withdraw_stake(relayer, amount);
                (s1, match out.result { Ok(e) => e.inflow(), Err(_) => 0 })
            },
            RelayerEscrowStep::Donation { amount } => (self, amount as int),
        }
    }
}

/// The state of a deployed escrow after `history`, and the escrow's token balance.
pub open spec fn relayer_escrow_after(history: Seq<RelayerEscrowStep>) -> (RelayerEscrowState, int)
    decreases history.len(),
{
    if history.len() == 0 {
        (RelayerEscrowState::deployed(), 0)
    } else {
        let (s, balance) = relayer_escrow_after(history.drop_last());
        let (s1, change) = s.after(history.last());
        (s1, balance + change)
    }
}

/// The tokens sent to the escrow from outside its calls in `history`.
pub open spec fn donated(history: Seq<RelayerEscrowStep>) -> int
    decreases history.len(),
{
    if history.len() == 0 {
        0
    } else {
        donated(history.drop_last()) + match history.last() {
            RelayerEscrowStep::Donation { amount } => amount as int,
            _ => 0,
        }
    }
}

/// Adding a relayer with no stake to a set leaves the total unchanged.
proof fn lemma_total_with_unstaked(s: RelayerEscrowState, relayers: Set<Address>, r: Address)
    requires
        relayers.finite(),
        !s.stakes.dom().contains(r),
    ensures
        s.total_staked(relayers.insert(r)) == s.total_staked(relayers),
{
    if !relayers.contains(r) {
        lemma_sum_remove(relayers.insert(r), |a: Address| s.stake_of(a) as int, r);
        assert(relayers.insert(r).remove(r) =~= relayers);
    } else {
        assert(relayers.insert(r) =~= relayers);
    }
}

/// In every state the escrow reaches, whatever happened since it was
/// deployed: no stake is negative, finitely many relayers have one, and the
/// stakes of all relayers add up to exactly the escrow's token balance minus
/// what was sent to it from outside, so never to more than the balance.
pub proof fn lemma_stakes_covered_by_balance(history: Seq<RelayerEscrowStep>)
    ensures
        ({
            let (s, balance) = relayer_escrow_after(history);
            &&& s.well_formed()
            &&& s.stakes.dom().finite()
            &&& s.total_staked(s.stakes.dom()) + donated(history) == balance
            &&& s.total_staked(s.stakes.dom()) <= balance
        }),
    decreases history.len(),
{
    if history.len() == 0 {
        assert(RelayerEscrowState::deployed().stakes.dom() =~= Set::empty());
        lemma_deployed_total_is_zero(Set::empty());
    } else {
        let prefix = history.drop_last();
        lemma_stakes_covered_by_balance(prefix);
        assert(relayer_escrow_after(history) == ({
            let (s, balance) = relayer_escrow_after(prefix);
            let (s1, change) = s.after(history.last());
            (s1, balance + change)
        }));
        assert(donated(history) == donated(prefix) + match history.last() {
            RelayerEscrowStep::Donation { amount } => amount as int,
            _ => 0,
        });
        let (s, balance) = relayer_escrow_after(prefix);
        let k0 = s.stakes.dom();
        assert(donated(prefix) >= 0) by {
            lemma_donated_nonnegative(prefix);
        }
        match history.last() {
            RelayerEscrowStep::Initialize { admin, token } => {
                lemma_operations_keep_well_formed(s, admin, token, token, 0);
                let s1 = s.initialize(admin, token).0;
                lemma_sum_congruent(
                    k0,
                    |r: Address| s.stake_of(r) as int,
                    |r: Address| s1.stake_of(r) as int,
                );
            },
            RelayerEscrowStep::Deposit { relayer, amount } => {
                if s.deposit_fits(relayer, amount) {
                    lemma_operations_keep_well_formed(s, relayer, relayer, relayer, amount);
                    let s1 = s.deposit_stake(relayer, amount).0;
                    let k1 = s1.stakes.dom();
                    if s.deposit_stake(relayer, amount).1.result is Ok {
                        assert(k1 =~= k0.insert(relayer));
                        lemma_total_follows_transfers(s, relayer, amount, k1);
                        if !k0.contains(relayer) {
                            lemma_total_with_unstaked(s, k0, relayer);
                        } else {
                            assert(k0.insert(relayer) =~= k0);
                        }
                    }
                }
            },
            RelayerEscrowStep::Withdraw { relayer, amount } => {
                lemma_operations_keep_well_formed(s, relayer, relayer, relayer, amount);
                let s1 = s.withdraw_stake(relayer, amount).0;
                let k1 = s1.stakes.dom();
                if s.withdraw_stake(relayer, amount).1.result is Ok {
                    assert(k1 =~= k0.insert(relayer));
                    lemma_withdraw_bounded_by_stake(s, relayer, amount);
                    lemma_total_follows_transfers(s, relayer, amount, k1);
                    if !k0.contains(relayer) {
                        lemma_total_with_unstaked(s, k0, relayer);
                    } else {
                        assert(k0.insert(relayer) =~= k0);
                    }
                    assert(s.total_staked(k1) == s.total_staked(k0));
                    assert(s1.total_staked(k1) == s.total_staked(k1) + s.after(history.last()).1);
                } else {
                    assert(s1 == s);
                }
            },
            RelayerEscrowStep::Donation { amount } => {}
        }
    }
}

proof fn lemma_donated_nonnegative(history: Seq<RelayerEscrowStep>)
    ensures
        donated(history) >= 0,
    decreases history.len(),
{
    if history.len() > 0 {
        lemma_donated_nonnegative(history.drop_last());
    }
}

/// What the query answers: the token the escrow was bound to, or
/// `NotInitialized`; and a relayer that never deposited has stake zero.
pub proof fn lemma_get_token_and_stake(s: RelayerEscrowState, relayer: Address)
    ensures
        s.token matches Some(t) ==> s.get_token() == Ok::<Address, Error>(t),
        s.token is None ==> s.get_token() == Err::<Address, Error>(Error::NotInitialized),
        !s.stakes.dom().contains(relayer) ==> s.stake_of(relayer) == 0,
        s.stakes.dom().contains(relayer) ==> s.stake_of(relayer) == s.stakes[relayer],
        RelayerEscrowState::deployed().well_formed(),
        RelayerEscrowState::deployed().stake_of(relayer) == 0,
        RelayerEscrowState::deployed().token is None,
{
}

/// What `initialize` does, in terms of its inputs: on an escrow without a token
/// it asks for the admin's authorization, binds the token, publishes `Init`
/// and leaves every stake alone; on an escrow with a token it fails with
/// `AlreadyInitialized`, asks for no authorization and changes nothing.
pub proof fn lemma_initialize_outcomes(
    s: RelayerEscrowState,
    admin: Address,
    token: Address,
    relayer: Address,
)
    ensures
        s.token is Some ==> s.initialize(admin, token) == (
            s,
            Outcome::<Error> { authorizer: None, result: Err(Error::AlreadyInitialized) },
        ),
        s.token is None ==> ({
            let (s1, out) = s.initialize(admin, token);
            &&& out.authorizer == Some(admin)
            &&& out.result == Ok::<Effects, Error>(
                Effects { transfer: None, event: Event::Init { token } },
            )
            &&& s1.token == Some(token)
            &&& s1.get_token() == Ok::<Address, Error>(token)
            &&& s1.stake_of(relayer) == s.stake_of(relayer)
            &&& s1.stakes == s.stakes
        }),
{
}

/// What a deposit does, in terms of its inputs. The overflow guard holds for
/// every amount that keeps the stake within an `i128`; without a token the
/// deposit fails with `NotInitialized`, with a non-positive amount with
/// `InvalidAmount`, neither asking for authorization nor changing anything;
/// otherwise it succeeds, asks for the relayer's authorization, moves exactly
/// `amount` of the escrow's token from the relayer into the escrow, publishes
/// `Deposit`, raises the relayer's stake by exactly `amount` and leaves the
/// token and every other relayer's stake alone.
pub proof fn lemma_deposit_stake_outcomes(
    s: RelayerEscrowState,
    relayer: Address,
    amount: i128,
    other: Address,
)
    ensures
        s.stake_of(relayer) + amount <= i128::MAX ==> s.deposit_fits(relayer, amount),
        s.token is None ==> s.deposit_stake(relayer, amount) == (
            s,
            Outcome::<Error> { authorizer: None, result: Err(Error::NotInitialized) },
        ),
        s.token is Some && amount <= 0 ==> s.deposit_stake(relayer, amount) == (
            s,
            Outcome::<Error> { authorizer: None, result: Err(Error::InvalidAmount) },
        ),
        s.token is Some && amount > 0 && s.stake_of(relayer) + amount <= i128::MAX ==> ({
            let (s1, out) = s.deposit_stake(relayer, amount);
            &&& out.authorizer == Some(relayer)
            &&& out.result == Ok::<Effects, Error>(
                Effects {
                    transfer: Some(
                        Transfer {
                            token: s.token->Some_0,
                            relayer,
                            amount,
                            direction: Direction::IntoEscrow,
                        },
                    ),
                    event: Event::Deposit { relayer, amount },
                },
            )
            &&& s1.stake_of(relayer) == s.stake_of(relayer) + amount
            &&& other != relayer ==> s1.stake_of(other) == s.stake_of(other)
            &&& s1.token == s.token
        }),
{
}

/// What a withdrawal does, in terms of its inputs: without a token it fails
/// with `NotInitialized`, with a non-positive amount with `InvalidAmount`,
/// neither asking for authorization nor changing anything; above the stake it
/// asks for the relayer's authorization and fails with `InsufficientBalance`,
/// changing nothing; otherwise it succeeds, asks for the relayer's
/// authorization, sends exactly `amount` of the escrow's token from the escrow
/// to the relayer, publishes `Withdraw`, lowers the relayer's stake by exactly
/// `amount` and leaves the token and every other relayer's stake alone.
pub proof fn lemma_withdraw_stake_outcomes(
    s: RelayerEscrowState,
    relayer: Address,
    amount: i128,
    other: Address,
)
    ensures
        s.token is None ==> s.withdraw_stake(relayer, amount) == (
            s,
            Outcome::<Error> { authorizer: None, result: Err(Error::NotInitialized) },
        ),
        s.token is Some && amount <= 0 ==> s.withdraw_stake(relayer, amount) == (
            s,
            Outcome::<Error> { authorizer: None, result: Err(Error::InvalidAmount) },
        ),
        s.token is Some && amount > 0 && amount > s.stake_of(relayer) ==> s.withdraw_stake(
            relayer,
            amount,
        ) == (
            s,
            Outcome::<Error> { authorizer: Some(relayer), result: Err(Error::InsufficientBalance) },
        ),
        s.token is Some && 0 < amount <= s.stake_of(relayer) ==> ({
            let (s1, out) = s.withdraw_stake(relayer, amount);
            &&& out.authorizer == Some(relayer)
            &&& out.result == Ok::<Effects, Error>(
                Effects {
                    transfer: Some(
                        Transfer {
                            token: s.token->Some_0,
                            relayer,
                            amount,
                            direction: Direction::OutOfEscrow,
                        },
                    ),
                    event: Event::Withdraw { relayer, amount },
                },
            )
            &&& s1.stake_of(relayer) == s.stake_of(relayer) - amount
            &&& other != relayer ==> s1.stake_of(other) == s.stake_of(other)
            &&& s1.token == s.token
        }),
{
}

} // verus!
