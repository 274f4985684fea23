# zk-stf

Consensus on a token ledger whose blocks are either re-executed or proven in
zero knowledge. The library is written in Verus: its functions state what they
do, and Verus proves it. Of the time that `now_ns` reads off the clock there is
nothing to state.

## Layout

- `src/ledger.rs`: balances, transfers, blocks, state roots and commitments
- `src/generate.rs`, `src/workload.rs`, `src/replay.rs`: generated blocks, saved
  workloads, and checking them
- `src/codec.rs`, `src/digest.rs`, `src/crypto.rs`: bytes, hashes, signatures
- `src/messages.rs`, `src/state.rs`, `src/action.rs`: what replicas say, know,
  and ask for
- `src/validator.rs`: validating a block
- `src/consensus/`: the protocol
  - `model.rs`: each step as a function on mathematical models
  - `handlers.rs`, `rules.rs`, `execute.rs`, `qc.rs`: the steps themselves
  - `laws.rs`: what every replica keeps, and sends at most once
  - `faithful.rs`: re-execution follows the committed blocks
  - `agreement.rs`: what is decided lies on one chain
  - `authentic.rs`: a leader's certificates are accepted
  - `settled.rs`: a second pass over the rules changes nothing
- `src/network.rs`, `src/node.rs`, `src/logging.rs`: framing, admission, the main
  loop's rules, and the event log
- `tests/`: ordinary tests, among them a cluster in memory
- `app/`: the programs around the library: sockets, files, the prover

A replica is a state and a list of actions. Each event changes the state and
appends actions; whoever runs the replica performs them in order and reports
what happens as further events.

## What is trusted

SHA-256, Ed25519, the binary encoding of votes and transaction lists,
hexadecimal text, and the system clock come from outside the library. The
contract of each call says what is taken from it.
