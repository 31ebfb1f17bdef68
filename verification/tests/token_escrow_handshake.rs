// Scenarios of the handshake escrow, run against a small in-memory host that
// demands authorizations, keeps token balances, keeps the ledger time and
// records events the way the ledger does for a contract invocation.

use std::collections::HashMap;

use escrow_contracts::{
    Address, Direction, EscrowError, Event, Outcome, TokenEscrowHandshake, UnlockRequest,
    COOLDOWN_SECONDS,
};

const COOLDOWN: u64 = 172_800; // 2 days in seconds

/// The host aborted the invocation (refused authorization or a failed transfer).
#[derive(Debug, PartialEq)]
struct Abort;

type TryResult = Result<(), Result<EscrowError, Abort>>;

fn address(tag: u8, kind: u8) -> Address {
    let mut strkey = [b'A'; 56];
    strkey[0] = kind;
    strkey[54] = b'0' + tag / 10;
    strkey[55] = b'0' + tag % 10;
    Address::from_strkey(strkey)
}

struct Ledger {
    next_tag: u8,
    timestamp: u64,
    mock_all_auths: bool,
    balances: HashMap<[u8; 56], i128>,
    events: Vec<Event>,
}

impl Ledger {
    fn default() -> Self {
        Ledger {
            next_tag: 0,
            timestamp: 0,
            mock_all_auths: false,
            balances: HashMap::new(),
            events: Vec::new(),
        }
    }

    fn mock_all_auths(&mut self) {
        self.mock_all_auths = true;
    }

    fn set_auths_none(&mut self) {
        self.mock_all_auths = false;
    }

    fn generate(&mut self, kind: u8) -> Address {
        self.next_tag += 1;
        address(self.next_tag, kind)
    }

    fn mint(&mut self, to: &Address, amount: i128) {
        *self.balances.entry(to.strkey()).or_insert(0) += amount;
    }

    fn balance(&self, who: &Address) -> i128 {
        *self.balances.get(&who.strkey()).unwrap_or(&0)
    }

    fn last_topic(&self) -> &'static str {
        self.events.last().unwrap().topic()
    }
}

struct Client {
    contract: TokenEscrowHandshake,
    address: Address,
}

impl Client {
    fn settle(
        &mut self,
        env: &mut Ledger,
        saved: TokenEscrowHandshake,
        out: Outcome<EscrowError>,
    ) -> TryResult {
        if out.authorizer.is_some() && !env.mock_all_auths {
            self.contract = saved;
            return Err(Err(Abort));
        }
        match out.result {
            Err(e) => Err(Ok(e)),
            Ok(effects) => {
                if let Some(t) = effects.transfer {
                    let (from, to) = match t.direction {
                        Direction::IntoEscrow => (t.relayer, self.address),
                        Direction::OutOfEscrow => (self.address, t.relayer),
                    };
                    if env.balance(&from) < t.amount {
                        self.contract = saved;
                        return Err(Err(Abort));
                    }
                    env.mint(&from, -t.amount);
                    env.mint(&to, t.amount);
                }
                env.events.push(effects.event);
                Ok(())
            }
        }
    }

    fn try_initialize(&mut self, env: &mut Ledger, admin: &Address, token: &Address) -> TryResult {
        let saved = self.contract.clone();
        let out = self.contract.initialize(*admin, *token);
        self.settle(env, saved, out)
    }

    fn initialize(&mut self, env: &mut Ledger, admin: &Address, token: &Address) {
        self.try_initialize(env, admin, token).unwrap();
    }

    fn try_deposit_stake(&mut self, env: &mut Ledger, relayer: &Address, amount: &i128) -> TryResult {
        let saved = self.contract.clone();
        let out = self.contract.deposit_stake(*relayer, *amount);
        self.settle(env, saved, out)
    }

    fn deposit_stake(&mut self, env: &mut Ledger, relayer: &Address, amount: &i128) {
        self.try_deposit_stake(env, relayer, amount).unwrap();
    }

    fn try_initiate_unlock(&mut self, env: &mut Ledger, relayer: &Address, amount: &i128) -> TryResult {
        let saved = self.contract.clone();
        let out = self.contract.initiate_unlock(*relayer, *amount, env.timestamp);
        self.settle(env, saved, out)
    }

    fn initiate_unlock(&mut self, env: &mut Ledger, relayer: &Address, amount: &i128) {
        self.try_initiate_unlock(env, relayer, amount).unwrap();
    }

    fn try_claim_unlock(&mut self, env: &mut Ledger, relayer: &Address) -> TryResult {
        let saved = self.contract.clone();
        let out = self.contract.claim_unlock(*relayer, env.timestamp);
        self.settle(env, saved, out)
    }

    fn claim_unlock(&mut self, env: &mut Ledger, relayer: &Address) {
        self.try_claim_unlock(env, relayer).unwrap();
    }

    fn get_stake(&self, relayer: &Address) -> i128 {
        self.contract.get_stake(*relayer)
    }

    fn get_unlock_request(&self, relayer: &Address) -> Option<UnlockRequest> {
        self.contract.get_unlock_request(*relayer)
    }

    fn get_token(&self) -> Address {
        self.contract.get_token().unwrap()
    }
}

fn create_token(env: &mut Ledger) -> (Address, Address) {
    let admin = env.generate(b'G');
    let token = env.generate(b'C');
    (token, admin)
}

fn create_escrow(env: &mut Ledger) -> Client {
    Client { contract: TokenEscrowHandshake::new(), address: env.generate(b'C') }
}

fn mint(env: &mut Ledger, _token: &Address, recipient: &Address, amount: i128) {
    env.mint(recipient, amount);
}

fn advance_time(env: &mut Ledger, delta: u64) {
    env.timestamp += delta;
}

// ---------------------------------------------------------------------------
// initialize
// ---------------------------------------------------------------------------

#[test]
fn test_test_initialize_stores_token() {
    let mut env = Ledger::default();
    env.mock_all_auths();
    let (token, admin) = create_token(&mut env);
    let mut escrow = create_escrow(&mut env);

    escrow.initialize(&mut env, &admin, &token);

    assert_eq!(escrow.get_token(), token);
}

#[test]
fn test_initialize_twice_errors() {
    let mut env = Ledger::default();
    env.mock_all_auths();
    let (token, admin) = create_token(&mut env);
    let mut escrow = create_escrow(&mut env);

    escrow.initialize(&mut env, &admin, &token);
    assert_eq!(
        escrow.try_initialize(&mut env, &admin, &token),
        Err(Ok(EscrowError::AlreadyInitialized))
    );
}

// ---------------------------------------------------------------------------
// deposit_stake
// ---------------------------------------------------------------------------

#[test]
fn test_test_deposit_stake_increases_balance() {
    let mut env = Ledger::default();
    env.mock_all_auths();

    let (token, admin) = create_token(&mut env);
    let mut escrow = create_escrow(&mut env);
    escrow.initialize(&mut env, &admin, &token);

    let relayer = env.generate(b'G');
    mint(&mut env, &token, &relayer, 1_000);

    escrow.deposit_stake(&mut env, &relayer, &600);

    assert_eq!(escrow.get_stake(&relayer), 600);
}

#[test]
fn test_deposit_stake_accumulates() {
    let mut env = Ledger::default();
    env.mock_all_auths();

    let (token, admin) = create_token(&mut env);
    let mut escrow = create_escrow(&mut env);
    escrow.initialize(&mut env, &admin, &token);

    let relayer = env.generate(b'G');
    mint(&mut env, &token, &relayer, 2_000);

    escrow.deposit_stake(&mut env, &relayer, &500);
    escrow.deposit_stake(&mut env, &relayer, &300);

    assert_eq!(escrow.get_stake(&relayer), 800);
}

#[test]
fn test_deposit_zero_errors() {
    let mut env = Ledger::default();
    env.mock_all_auths();

    let (token, admin) = create_token(&mut env);
    let mut escrow = create_escrow(&mut env);
    escrow.initialize(&mut env, &admin, &token);

    let relayer = env.generate(b'G');
    assert_eq!(
        escrow.try_deposit_stake(&mut env, &relayer, &0),
        Err(Ok(EscrowError::InvalidAmount))
    );
}

#[test]
fn test_deposit_requires_auth() {
    let mut env = Ledger::default();

    let (token, admin) = {
        env.mock_all_auths();
        create_token(&mut env)
    };
    let mut escrow = create_escrow(&mut env);
    escrow.initialize(&mut env, &admin, &token);

    env.set_auths_none();
    let relayer = env.generate(b'G');
    assert!(escrow.try_deposit_stake(&mut env, &relayer, &100).is_err());
}

#[test]
fn test_deposit_moves_tokens_to_escrow() {
    let mut env = Ledger::default();
    env.mock_all_auths();

    let (token, admin) = create_token(&mut env);
    let mut escrow = create_escrow(&mut env);
    escrow.initialize(&mut env, &admin, &token);

    let relayer = env.generate(b'G');
    mint(&mut env, &token, &relayer, 1_000);

    assert_eq!(env.balance(&relayer), 1_000);
    assert_eq!(env.balance(&escrow.address), 0);

    escrow.deposit_stake(&mut env, &relayer, &700);

    assert_eq!(env.balance(&relayer), 300);
    assert_eq!(env.balance(&escrow.address), 700);
}

#[test]
fn test_deposit_emits_event() {
    let mut env = Ledger::default();
    env.mock_all_auths();

    let (token, admin) = create_token(&mut env);
    let mut escrow = create_escrow(&mut env);
    escrow.initialize(&mut env, &admin, &token);

    let relayer = env.generate(b'G');
    mint(&mut env, &token, &relayer, 500);
    escrow.deposit_stake(&mut env, &relayer, &500);

    assert_eq!(env.last_topic(), "deposit");
}

// ---------------------------------------------------------------------------
// initiate_unlock
// ---------------------------------------------------------------------------

#[test]
fn test_initiate_unlock_deducts_stake_and_stores_request() {
    let mut env = Ledger::default();
    env.mock_all_auths();

    let (token, admin) = create_token(&mut env);
    let mut escrow = create_escrow(&mut env);
    escrow.initialize(&mut env, &admin, &token);

    let relayer = env.generate(b'G');
    mint(&mut env, &token, &relayer, 1_000);
    escrow.deposit_stake(&mut env, &relayer, &1_000);

    let before_ts = env.timestamp;
    escrow.initiate_unlock(&mut env, &relayer, &400);

    assert_eq!(escrow.get_stake(&relayer), 600);

    let req: UnlockRequest = escrow.get_unlock_request(&relayer).unwrap();
    assert_eq!(req.amount, 400);
    assert_eq!(req.unlock_time, before_ts + COOLDOWN);
}

#[test]
fn test_initiate_unlock_insufficient_stake_errors() {
    let mut env = Ledger::default();
    env.mock_all_auths();

    let (token, admin) = create_token(&mut env);
    let mut escrow = create_escrow(&mut env);
    escrow.initialize(&mut env, &admin, &token);

    let relayer = env.generate(b'G');
    mint(&mut env, &token, &relayer, 500);
    escrow.deposit_stake(&mut env, &relayer, &500);

    assert_eq!(
        escrow.try_initiate_unlock(&mut env, &relayer, &600),
        Err(Ok(EscrowError::InsufficientStake))
    );
}

#[test]
fn test_initiate_unlock_double_request_errors() {
    let mut env = Ledger::default();
    env.mock_all_auths();

    let (token, admin) = create_token(&mut env);
    let mut escrow = create_escrow(&mut env);
    escrow.initialize(&mut env, &admin, &token);

    let relayer = env.generate(b'G');
    mint(&mut env, &token, &relayer, 1_000);
    escrow.deposit_stake(&mut env, &relayer, &1_000);

    escrow.initiate_unlock(&mut env, &relayer, &300);

    assert_eq!(
        escrow.try_initiate_unlock(&mut env, &relayer, &200),
        Err(Ok(EscrowError::PendingUnlockExists))
    );
}

#[test]
fn test_initiate_unlock_requires_auth() {
    let mut env = Ledger::default();
    env.mock_all_auths();

    let (token, admin) = create_token(&mut env);
    let mut escrow = create_escrow(&mut env);
    escrow.initialize(&mut env, &admin, &token);

    let relayer = env.generate(b'G');
    mint(&mut env, &token, &relayer, 500);
    escrow.deposit_stake(&mut env, &relayer, &500);

    env.set_auths_none();
    assert!(escrow.try_initiate_unlock(&mut env, &relayer, &200).is_err());
}

#[test]
fn test_initiate_unlock_emits_event() {
    let mut env = Ledger::default();
    env.mock_all_auths();

    let (token, admin) = create_token(&mut env);
    let mut escrow = create_escrow(&mut env);
    escrow.initialize(&mut env, &admin, &token);

    let relayer = env.generate(b'G');
    mint(&mut env, &token, &relayer, 500);
    escrow.deposit_stake(&mut env, &relayer, &500);
    escrow.initiate_unlock(&mut env, &relayer, &500);

    assert_eq!(env.last_topic(), "unlock");
}

// ---------------------------------------------------------------------------
// claim_unlock
// ---------------------------------------------------------------------------

#[test]
fn test_claim_unlock_before_cooldown_errors() {
    let mut env = Ledger::default();
    env.mock_all_auths();

    let (token, admin) = create_token(&mut env);
    let mut escrow = create_escrow(&mut env);
    escrow.initialize(&mut env, &admin, &token);

    let relayer = env.generate(b'G');
    mint(&mut env, &token, &relayer, 1_000);
    escrow.deposit_stake(&mut env, &relayer, &1_000);
    escrow.initiate_unlock(&mut env, &relayer, &1_000);

    advance_time(&mut env, COOLDOWN - 1);

    assert_eq!(
        escrow.try_claim_unlock(&mut env, &relayer),
        Err(Ok(EscrowError::CooldownNotElapsed))
    );
}

#[test]
fn test_claim_unlock_after_cooldown_succeeds() {
    let mut env = Ledger::default();
    env.mock_all_auths();

    let (token, admin) = create_token(&mut env);
    let mut escrow = create_escrow(&mut env);
    escrow.initialize(&mut env, &admin, &token);

    let relayer = env.generate(b'G');
    mint(&mut env, &token, &relayer, 1_000);
    escrow.deposit_stake(&mut env, &relayer, &1_000);
    escrow.initiate_unlock(&mut env, &relayer, &1_000);

    advance_time(&mut env, COOLDOWN);

    assert_eq!(env.balance(&relayer), 0);

    escrow.claim_unlock(&mut env, &relayer);

    assert_eq!(env.balance(&relayer), 1_000);
    assert_eq!(env.balance(&escrow.address), 0);

    assert!(escrow.get_unlock_request(&relayer).is_none());
}

#[test]
fn test_claim_unlock_exactly_at_cooldown_boundary_succeeds() {
    let mut env = Ledger::default();
    env.mock_all_auths();

    let (token, admin) = create_token(&mut env);
    let mut escrow = create_escrow(&mut env);
    escrow.initialize(&mut env, &admin, &token);

    let relayer = env.generate(b'G');
    mint(&mut env, &token, &relayer, 500);
    escrow.deposit_stake(&mut env, &relayer, &500);
    escrow.initiate_unlock(&mut env, &relayer, &500);

    advance_time(&mut env, COOLDOWN);

    escrow.claim_unlock(&mut env, &relayer);
    assert_eq!(env.balance(&relayer), 500);
}

#[test]
fn test_claim_unlock_no_request_errors() {
    let mut env = Ledger::default();
    env.mock_all_auths();

    let (token, admin) = create_token(&mut env);
    let mut escrow = create_escrow(&mut env);
    escrow.initialize(&mut env, &admin, &token);

    let relayer = env.generate(b'G');

    assert_eq!(
        escrow.try_claim_unlock(&mut env, &relayer),
        Err(Ok(EscrowError::NoUnlockRequest))
    );
}

#[test]
fn test_claim_unlock_requires_auth() {
    let mut env = Ledger::default();
    env.mock_all_auths();

    let (token, admin) = create_token(&mut env);
    let mut escrow = create_escrow(&mut env);
    escrow.initialize(&mut env, &admin, &token);

    let relayer = env.generate(b'G');
    mint(&mut env, &token, &relayer, 500);
    escrow.deposit_stake(&mut env, &relayer, &500);
    escrow.initiate_unlock(&mut env, &relayer, &500);
    advance_time(&mut env, COOLDOWN);

    env.set_auths_none();
    assert!(escrow.try_claim_unlock(&mut env, &relayer).is_err());
}

#[test]
fn test_claim_unlock_emits_event() {
    let mut env = Ledger::default();
    env.mock_all_auths();

    let (token, admin) = create_token(&mut env);
    let mut escrow = create_escrow(&mut env);
    escrow.initialize(&mut env, &admin, &token);

    let relayer = env.generate(b'G');
    mint(&mut env, &token, &relayer, 800);
    escrow.deposit_stake(&mut env, &relayer, &800);
    escrow.initiate_unlock(&mut env, &relayer, &800);
    advance_time(&mut env, COOLDOWN);
    escrow.claim_unlock(&mut env, &relayer);

    assert_eq!(env.last_topic(), "claim");
}

// ---------------------------------------------------------------------------
// Full flow
// ---------------------------------------------------------------------------

#[test]
fn test_full_deposit_unlock_claim_flow() {
    let mut env = Ledger::default();
    env.mock_all_auths();

    let (token, admin) = create_token(&mut env);
    let mut escrow = create_escrow(&mut env);
    escrow.initialize(&mut env, &admin, &token);

    let relayer = env.generate(b'G');
    mint(&mut env, &token, &relayer, 2_000);

    escrow.deposit_stake(&mut env, &relayer, &2_000);
    assert_eq!(escrow.get_stake(&relayer), 2_000);
    assert_eq!(env.balance(&escrow.address), 2_000);

    escrow.initiate_unlock(&mut env, &relayer, &1_500);
    assert_eq!(escrow.get_stake(&relayer), 500);
    assert_eq!(escrow.get_unlock_request(&relayer).unwrap().amount, 1_500);

    advance_time(&mut env, COOLDOWN - 10);
    assert_eq!(
        escrow.try_claim_unlock(&mut env, &relayer),
        Err(Ok(EscrowError::CooldownNotElapsed))
    );

    advance_time(&mut env, 10);
    escrow.claim_unlock(&mut env, &relayer);

    assert_eq!(env.balance(&relayer), 1_500);
    assert_eq!(env.balance(&escrow.address), 500);
    assert!(escrow.get_unlock_request(&relayer).is_none());
}

#[test]
fn test_two_relayers_are_independent() {
    let mut env = Ledger::default();
    env.mock_all_auths();

    let (token, admin) = create_token(&mut env);
    let mut escrow = create_escrow(&mut env);
    escrow.initialize(&mut env, &admin, &token);

    let alice = env.generate(b'G');
    let bob = env.generate(b'G');
    mint(&mut env, &token, &alice, 1_000);
    mint(&mut env, &token, &bob, 1_000);

    escrow.deposit_stake(&mut env, &alice, &1_000);
    escrow.deposit_stake(&mut env, &bob, &1_000);

    escrow.initiate_unlock(&mut env, &alice, &1_000);

    assert_eq!(escrow.get_stake(&bob), 1_000);
    assert!(escrow.get_unlock_request(&bob).is_none());

    advance_time(&mut env, COOLDOWN);
    escrow.claim_unlock(&mut env, &alice);

    assert_eq!(env.balance(&alice), 1_000);
    assert_eq!(escrow.get_stake(&bob), 1_000);
}

// ---------------------------------------------------------------------------
// Further cases
// ---------------------------------------------------------------------------

#[test]
fn cooldown_is_two_days() {
    assert_eq!(COOLDOWN_SECONDS, 172_800);
}

#[test]
fn escrow_error_codes_match_the_contract_abi() {
    assert_eq!(EscrowError::NotInitialized.code(), 1);
    assert_eq!(EscrowError::AlreadyInitialized.code(), 2);
    assert_eq!(EscrowError::InsufficientStake.code(), 3);
    assert_eq!(EscrowError::PendingUnlockExists.code(), 4);
    assert_eq!(EscrowError::NoUnlockRequest.code(), 5);
    assert_eq!(EscrowError::CooldownNotElapsed.code(), 6);
    assert_eq!(EscrowError::InvalidAmount.code(), 7);
}

#[test]
fn every_call_before_initialize_is_not_initialized() {
    let mut escrow = TokenEscrowHandshake::new();
    let relayer = address(2, b'G');
    let expected = Outcome { authorizer: None, result: Err(EscrowError::NotInitialized) };
    assert_eq!(escrow.deposit_stake(relayer, 10), expected);
    assert_eq!(escrow.initiate_unlock(relayer, 10, 0), expected);
    assert_eq!(escrow.claim_unlock(relayer, 0), expected);
    assert_eq!(escrow.get_token(), Err(EscrowError::NotInitialized));
}

#[test]
fn unlock_event_carries_the_unlock_time() {
    let mut escrow = TokenEscrowHandshake::new();
    let relayer = address(2, b'G');
    escrow.initialize(address(9, b'G'), address(1, b'C'));
    escrow.deposit_stake(relayer, 90);
    let out = escrow.initiate_unlock(relayer, 30, 1_000);
    assert_eq!(out.authorizer, Some(relayer));
    let effects = out.result.unwrap();
    assert_eq!(effects.transfer, None);
    assert_eq!(
        effects.event,
        Event::Unlock { relayer, amount: 30, unlock_time: 1_000 + 172_800 }
    );
    assert_eq!(effects.event.topic(), "unlock");
}

#[test]
fn claim_needs_authorization_before_looking_for_a_request() {
    let mut escrow = TokenEscrowHandshake::new();
    let relayer = address(2, b'G');
    escrow.initialize(address(9, b'G'), address(1, b'C'));
    let out = escrow.claim_unlock(relayer, 0);
    assert_eq!(out.authorizer, Some(relayer));
    assert_eq!(out.result, Err(EscrowError::NoUnlockRequest));
}

#[test]
fn unlock_checks_pending_request_before_stake() {
    let mut escrow = TokenEscrowHandshake::new();
    let relayer = address(2, b'G');
    escrow.initialize(address(9, b'G'), address(1, b'C'));
    escrow.deposit_stake(relayer, 100);
    escrow.initiate_unlock(relayer, 100, 5);
    // No stake is left, but the pending request is what stops the second unlock.
    assert_eq!(
        escrow.initiate_unlock(relayer, 50, 6).result,
        Err(EscrowError::PendingUnlockExists)
    );
    assert_eq!(escrow.get_stake(relayer), 0);
}

#[test]
fn deposit_during_cooldown_keeps_the_request() {
    let mut escrow = TokenEscrowHandshake::new();
    let relayer = address(2, b'G');
    escrow.initialize(address(9, b'G'), address(1, b'C'));
    escrow.deposit_stake(relayer, 100);
    escrow.initiate_unlock(relayer, 60, 10);
    escrow.deposit_stake(relayer, 5);
    assert_eq!(escrow.get_stake(relayer), 45);
    assert_eq!(
        escrow.get_unlock_request(relayer),
        Some(UnlockRequest { amount: 60, unlock_time: 10 + 172_800 })
    );
    let out = escrow.claim_unlock(relayer, 10 + 172_800);
    let transfer = out.result.unwrap().transfer.unwrap();
    assert_eq!(transfer.amount, 60);
    assert_eq!(transfer.direction, Direction::OutOfEscrow);
    assert_eq!(escrow.get_stake(relayer), 45);
    assert_eq!(escrow.get_unlock_request(relayer), None);
}

#[test]
fn a_new_unlock_is_possible_after_the_claim() {
    let mut escrow = TokenEscrowHandshake::new();
    let relayer = address(2, b'G');
    escrow.initialize(address(9, b'G'), address(1, b'C'));
    escrow.deposit_stake(relayer, 100);
    escrow.initiate_unlock(relayer, 40, 0);
    assert!(escrow.claim_unlock(relayer, 172_800).result.is_ok());
    assert!(escrow.initiate_unlock(relayer, 60, 172_800).result.is_ok());
    assert_eq!(escrow.get_stake(relayer), 0);
    assert_eq!(escrow.get_unlock_request(relayer).unwrap().unlock_time, 2 * 172_800);
}

#[test]
fn escrow_balance_equals_stakes_plus_pending() {
    let mut env = Ledger::default();
    env.mock_all_auths();
    let (token, admin) = create_token(&mut env);
    let mut escrow = create_escrow(&mut env);
    escrow.initialize(&mut env, &admin, &token);
    let a = env.generate(b'G');
    let b = env.generate(b'G');
    mint(&mut env, &token, &a, 1_000);
    mint(&mut env, &token, &b, 1_000);
    escrow.deposit_stake(&mut env, &a, &400);
    escrow.deposit_stake(&mut env, &b, &250);
    escrow.initiate_unlock(&mut env, &a, &150);
    escrow.initiate_unlock(&mut env, &b, &50);
    advance_time(&mut env, COOLDOWN);
    escrow.claim_unlock(&mut env, &b);
    let owed = escrow.get_stake(&a)
        + escrow.get_stake(&b)
        + escrow.get_unlock_request(&a).map_or(0, |r| r.amount)
        + escrow.get_unlock_request(&b).map_or(0, |r| r.amount);
    assert_eq!(owed, 600);
    assert_eq!(env.balance(&escrow.address), owed);
}

#[test]
fn handshake_initialize_requires_admin_auth() {
    let mut env = Ledger::default();
    let (token, admin) = create_token(&mut env);
    let mut escrow = create_escrow(&mut env);

    assert!(escrow.try_initialize(&mut env, &admin, &token).is_err());
    assert_eq!(escrow.contract.get_token(), Err(EscrowError::NotInitialized));

    env.mock_all_auths();
    escrow.initialize(&mut env, &admin, &token);
    assert_eq!(escrow.get_token(), token);
}

#[test]
fn a_claimed_unlock_pays_only_once() {
    let mut escrow = TokenEscrowHandshake::new();
    let relayer = address(2, b'G');
    escrow.initialize(address(9, b'G'), address(1, b'C'));
    escrow.deposit_stake(relayer, 100);
    escrow.initiate_unlock(relayer, 70, 0);
    escrow.deposit_stake(relayer, 3);
    assert!(escrow.claim_unlock(relayer, COOLDOWN).result.is_ok());
    escrow.deposit_stake(relayer, 4);
    let again = escrow.claim_unlock(relayer, 10 * COOLDOWN);
    assert_eq!(again.authorizer, Some(relayer));
    assert_eq!(again.result, Err(EscrowError::NoUnlockRequest));
    assert_eq!(escrow.get_stake(relayer), 37);
}
