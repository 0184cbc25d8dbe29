# half_tree_dpf

Distributed point functions (DPFs) on a Half-Tree GGM tree, verified with
Verus.

A DPF key pair for the point function f_{α,β} gives each of two parties a key
such that, at every input x, the two parties' evaluations add up to β when
x = α and to zero otherwise. Keys come either from a trusted dealer or from a
two-party protocol run against ideal correlated-OT and coin-tossing oracles.

Layout of `src/`:

- `bits`, `seed` — 16-byte blocks, their control bit (the LSB), and the
  laws of XOR on blocks.
- `field` — the output ranges (`DpfRange`: an abelian group with a map from
  seed blocks), with F₂ and wrapping `u64`.
- `hash` — the keyed hash H_S and the tree expansions built on it, with an
  AES-based and a rotate-and-XOR implementation.
- `dpf` — keys, evaluation, dealer key generation, whole-level expansion,
  and the correctness proof (`dpf::correctness::lemma_dpf_correct`, with
  `dpf::gen_ref::lemma_gen_correct` for dealer keys).
- `hybrid` — the ideal oracles (correlated OT, coin tossing, OLE). The
  simulated ones read a seeded ChaCha20 stream, held as a seed and a word
  position; what the stream holds at a position is named after the outside
  calls that read it. The COT and coin-tossing oracles also record, as spec
  functions, what each call handed out, so the protocol's contracts speak
  of exactly those values.
- `protocol` — the preprocessing sub-protocol and the binary-field
  generation protocol, with its correctness proof
  (`protocol::fig10::lemma_gen_binary_correct`).

`app/` holds what stays ordinary Rust: the error type with its `thiserror`
derive, the seed type with its `Zeroize` derive, and the OLE placeholders of
the general-ring path.
