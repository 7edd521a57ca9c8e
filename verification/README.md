# ArcNet

A UTXO blockchain: blocks with proof of work, signed transactions, a mempool ordered
by miner's fee, difficulty adjustment, a node, a miner and a wallet. The rules are a
library verified with Verus; the programs around it are ordinary Rust.

- `src/` — the verified library.
  - `u256.rs`, `cbor.rs`, `sha256.rs`: 256-bit integers, the CBOR encoding that hashes
    are taken over, and SHA-256 hashes (through the `sha256` and `hex` crates).
  - `crypto.rs`, `timestamp.rs`: secp256k1 keys and signatures (`k256`, `ecdsa`) and
    instants (`chrono`), held as plain bytes and numbers.
  - `types/`: transactions, the unspent outputs, blocks and their checks, the chain
    (adding blocks, target adjustment, rebuilding the unspent outputs) and the mempool.
  - `util.rs`: Merkle roots. `network.rs`: messages and their framing on a stream.
  - `node.rs`: what a node does with each request. `miner.rs`: the miner's and the
    catching-up node's decisions. `wallet.rs`: coin selection, balance, amounts in coins
    and their large-letter display (`text-to-ascii-art`). `cli.rs`: the wallet's command
    line, from a line to what it asks for.
- `tests/` — tests of the library, including encodings checked against `ciborium`.
- `app/` — the programs (`node`, `miner`, `wallet` and small tools), the serializable
  copies of the library's types, files, sockets, the terminal interface, and the
  floating-point fee and unit computations.
