# Dawn

A node of Dawn, a cryptocurrency whose consensus rests on weather readings
("beacons") and verifiable delay functions instead of proof of work.

- `src/` is the node's logic, verified with Verus: keys and signatures
  (`util`), transactions, unspent outputs, blocks and the chain
  (`blockchain`), the node's state (`state`), beacons (`beacon`) and the
  state machine that turns events into a next state and an effect
  (`update`). Calls into `rsa`, `hex` and `vdf` go through small trusted
  wrappers whose contracts state what those crates do; `classgroup`, the
  big-integer crate under `vdf`, serves to check that a VDF proof is well
  formed before `vdf` reads it (it panics on some malformed proofs).
- Block hashes, block and transaction signatures and the VDF challenge are
  taken over the text that Rust's formatting writes: for block data
  `format!("{}{}{:?}{:?}{:?}{:?}", index, timestamp, transactions, beacon,
  issuer, previous_hash)`, followed by the VDF solution (and, for the hash,
  the signature) as `Debug` lists of bytes; for a transaction
  `format!("{}{:?}{:?}", sender, out, tx_in)`. The library writes that text
  itself, and its contracts state it byte for byte.
- `app/` runs a node around it: the command line, the key and chain files,
  the HTTP API and the peer-to-peer server, the beacon command, and the loop
  that feeds events to `update` and carries out the effects it asks for.
- `tests/` exercises the library on concrete values.

The node expects a `beacon/locations.geojson` listing the places whose
temperatures make a beacon, an optional `config.json` with the shared
settings (`p2p_port`, `vdf_difficulty`; the library checks and solves VDFs
at its fixed difficulty of 5295676 squarings, whatever the file says), and
a beacon command given with
`--beacon-cmd` that answers `lat lon timestamp` lines with
`{"temperature": t}` in tenths of a degree.
