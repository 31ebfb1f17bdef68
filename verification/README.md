# escrow_contracts

Verified models of two Soroban staking escrows, written in Verus.

- `src/relayer_escrow.rs`: relayers deposit a token as collateral and withdraw
  it within their stake.
- `src/token_escrow_handshake.rs`: withdrawals go through a handshake; an
  unlock takes the amount out of the stake and starts a two-day cooldown, and
  the relayer claims the tokens after it.

Each escrow is a state machine over plain values. Its state has a mathematical
view (`RelayerEscrowState`, `HandshakeState`) whose spec functions define every
call; the executable operations are proved to follow them, and the proof
functions at the end of each module state the laws of the escrows (single
initialization, bounded withdrawals, the cooldown, stakes that move exactly
with the tokens).

A call returns an `Outcome`: the relayer whose authorization the host demands
first, and either an error or the token transfer and event that the host
performs. `app/` binds the models to Soroban: it keeps the state in contract
storage, demands the authorizations, calls the token contract and publishes the
events. `src/address_map.rs` and `src/totals.rs` hold the finite map and the
sums that the models and their laws use.
