# Freenet Wiki (verified core)

The logic of a decentralized wiki on Freenet, written in Verus: every function in
`src/` carries a contract, and the laws of the design (patches merge commutatively,
a state has nothing to send to a peer that holds its summary, contributors join only
through valid invitations, only the owner changes the configuration) are proved as
public proof functions.

- `src/` is the verified library (see the module list in `src/lib.rs`).
- `tests/` runs the library on concrete values.
- `app/` is the unverified shell: CBOR encoding through serializable copies of the
  library's types, the Freenet contract and delegate entry points, and the UI.

Signatures cover the CBOR encoding of the signed record, written by the library
itself (`src/encoding.rs`) in the shape the wire form takes: a map from field names
to values in declaration order, shortest-form heads, timestamps as RFC 3339 text.
A signature made over the serialized record verifies in the library, and the reverse.
