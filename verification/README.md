# fancy-garbling (evaluator side), verified

The evaluation side of a garbling scheme for arithmetic circuits over mixed
moduli, written in Verus.

- `src/util.rs` — digit counts per modulus, powers, the fixed tweakable block
  hash, tweak packing.
- `src/wire.rs` — wire labels (base-`q` digit vectors) with their abstract
  model `Label`, label arithmetic, conversion to and from 128-bit blocks, and
  the laws that relate them.
- `src/wire/npaths_tab.rs`, `src/wire/power_tables.rs` — the table of powers
  of a modulus, with precomputed tables for common moduli proved equal to the
  powers.
- `src/circuit.rs` — circuits and gates.
- `src/garble.rs` — the messages a garbler streams to an evaluator.
- `src/garble/evaluator.rs` — evaluation of garbled projection and
  multiplication gates, whole garbled circuits, the encoder and the decoder,
  with their specifications and laws.
- `app/` — byte encodings (serde/bincode) and the callback-driven streaming
  evaluator, which only moves messages and calls the verified functions.

Two pieces are this library's own choice, and a garbler must follow them for
its labels to be read here:

- the tweakable block hash of labels (`util::block_hash`, a fixed-key
  xor-shift/multiply mixer); it is not the AES-based hash of other garbling
  libraries, so labels garbled with such a hash do not evaluate here;
- the numbering of non-free gates inside sync blocks
  (`garble::sync::sync_gate_id_spec`): the `k`-th gate of index `i` in a block
  with `n` indices that began at gate `s` is numbered `s + (k*n + i + 1) * 2^32`.
  Outside sync blocks, gates are numbered in order, and a closed block moves the
  count on by one.
