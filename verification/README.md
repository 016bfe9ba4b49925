# multisig

The client side of a multisignature wallet program, verified with Verus.

- `src/pubkey.rs`: 32-byte addresses, the program's address, and the
  program-derived addresses found by `solana_program`.
- `src/codec.rs`: the byte format of stored state and instruction data
  (little-endian integers, one-byte flags, length-prefixed lists), with
  readers proved to give back what the writers wrote.
- `src/state.rs`: the multisig account, the transaction account, and the
  compact instructions a transaction stores; packing and unpacking.
- `src/instruction.rs`: instructions and accounts in general form, and the
  multisig program's instruction set with its encoding and decoding.
- `src/bindings.rs`: builders of the program's instructions and of the
  compact form of a list of instructions.
- `src/client.rs`: what a client computes between requests: the merged
  accounts a stored transaction needs when it runs, and its approvals.
- `app/`: conversions to and from the `solana_program` types, serde copies of
  the stored types, and the asynchronous client that talks to a cluster.
- `tests/`: tests of the library, some against `solana_program` and `borsh`.
