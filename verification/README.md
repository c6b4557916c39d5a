# Cube

The verified core of a Bitcoin rollup engine, written in Verus: executable Rust whose
behaviour is stated in contracts and proved.

## What is verified

- **Signatures.** BIP-340 signing and verification, BIP-327 key aggregation and signing
  sessions, and projected keys, which bind an aggregate key to the values that its
  signers stand for. Valid partial signatures of all signers add up to a valid signature
  under the aggregate key.
- **Outputs.** Tapscript clauses, BIP-341 script trees, timeout trees that render a
  contract pot as unilaterally exitable outputs, the refresh of a pot, and the cosigning
  of deposits. The key that a refresh or a cosignature signs under is the key of the
  output that it spends.
- **Garbled verification.** The circuit that decides whether a claimed lottery winner is
  right, its garbling and its evaluation. The circuit computes the winner predicate, and
  evaluating it reveals the label of the claim's truth value.
- **Batches.** Assembling, signing and encoding batch transactions, with every signature
  checked against the sighash of its input.
- **Protocols and engine.** Messages and decisions of the liftup and call protocols, the
  phases of a batch session, call fees, stack opcodes, and the lottery arcade.

## Layout

- `src/` is the library. Each module states its model as spec functions, its contracts
  over them, and its laws as public `theorem_` functions.
- `app/` is ordinary Rust around the library: wire formats, network, clock, terminal and
  web server.
- `tests/` runs the library, against published vectors and the outside libraries where
  there are any.

## What is trusted

Functions named `outside_…` call `secp`, `bitcoin`, `hex` and `rand`. Each says in its
comment what it claims of the outside function. The digests of SHA-256 and RIPEMD-160 and
the multiples of the generator are names without a definition; everything else is defined
and proved.
