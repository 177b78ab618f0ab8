# chesscoin

A research protocol for deterministic proof-of-training: a chain of blocks, each of which carries a
training run of a small chess model, committed to step by step and checked by sampling. The library
is written in Verus: every function states what it returns, and the proofs are checked.

```text
M_t -> training trace -> trace commitment root -> sampled verification -> block accept/reject -> gossip
```

## Layout

- `src/domain` - digests, models, training steps, traces and blocks, and their bytes.
- `src/ports.rs`, `src/adapters.rs` - the boundaries for hashing and sampling, and the toy hash and
  the deterministic sampler that nodes use. The toy hash makes no security claim.
- `src/application` - traces, the simulator, block validation, mining, a single chain, and fork
  choice among all known blocks.
- `src/wire` - the messages between nodes, one to a line, and the envelope around them.
- `src/storage` - the block log: checksummed records, and how a log with an interrupted last record
  is loaded and repaired.
- `src/node` - a node as a state machine: what it holds, how lines, blocks, peers and commands
  change it, and when it mines and catches up.
- `src/cli` - the options of the command line and of a configuration file, and what is printed.
- `src/bits.rs`, `src/decimal.rs`, `src/text.rs` - words, numbers and strings.
- `app` - the program: sockets, threads, files and the clock around the library.
- `tests` - tests of the compiled library.

The files named `laws.rs`, and the lemmas beside the functions, state what holds of the library as a
whole: that blocks, messages and records read back as written, that fork choice depends on the known
blocks and not on their order, that a mined block is accepted, that a restarted node knows what it
stored, and that a late peer reaches the same chain.

## What is trusted

Two functions of the standard library: `String::push`, and `String::from_utf8` behind
`node::reader::utf8_text`. Implementations of `HashPort` and `SamplingPort` outside the library must
give results that depend on their arguments alone.
