# Authenticated Tensor Garbling

Authenticated garbling of tensor-product gates (and of Boolean circuits of AND
and XOR gates), written in Verus: every function of the library carries a
`requires`/`ensures` contract that Verus proves.

## Layout

- `src/` — the verified library.
  - `block`, `delta`, `keys`, `macs`, `aes`, `random`: 128-bit blocks, global
    keys, IT-MAC keys and MACs, the fixed-key AES hashes, and the calls into
    `aes`, `rand` and `rand_chacha`.
  - `sharing`, `matrix`, `matrix_text`, `xor_sum`: authenticated bit shares,
    column-major matrices and their views, their text form, XOR folds.
  - `tensor_ops`: GGM trees and the (chunked, narrow and wide) unary outer
    products.
  - `tensor_pre`, `tensor_gen`, `tensor_eval`: the semi-honest tensor gate.
  - `auth_tensor_fpre`, `preprocessing`, `bcot`, `tensor_macro`,
    `leaky_tensor_pre`, `auth_tensor_pre`, `feq`: preprocessing (ideal and
    uncompressed) of authenticated tensor triples.
  - `auth_tensor_gen`, `auth_tensor_eval`, `input_encoding`, `online`,
    `tensor_gate`: the authenticated tensor gate (both protocols), its input
    encoding and consistency checks, and its correctness laws.
  - `circuit`, `fpre`, `auth_gen`, `auth_eval`, `auth_garbling`: authenticated
    garbling of Boolean circuits with half gates, and its correctness laws.
- `tests/` — tests of the library.
- `app/` — a small program that garbles and evaluates a circuit, a simulated
  network link, and serde/thiserror forms of some library types.
