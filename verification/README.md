# tendermint

A consensus engine that uses the Tendermint algorithm, verified with Verus.

Validators agree on one block per height. A height is a series of views; in each view one validator
proposes a block, all validators prevote, and those who see more than two thirds of the prevotes
for a block lock on it and precommit to it. In the precommit step more than two thirds of the votes
of one round for the block decide it, and their signatures become its seal. The step of these votes
is not looked at: prevotes that come late count as well as precommits do.

The engine never waits and never does I/O. It takes events (messages of peers, timeouts, signatures)
and answers with actions for the node; a vote of its own begins with a request for a signature.

- `src/state.rs` is the model: the state of the engine, and what every event leads to.
- `src/engine.rs` and `src/engine/sealing.rs` are the engine itself: voting, locking and committing, and
  proposing blocks and checking seals.
- `src/votes.rs` collects votes, `src/validators.rs` says who votes and who proposes.
- `src/message.rs`, `src/seal.rs` and `src/codec.rs` are the wire format, on top of the `rlp` crate.
- `src/epoch.rs` deals with changes of the validators.
- `src/laws.rs` states what holds of the engine as a whole.
- `app/` puts the engine into a node: locks, client, timers and keys.
