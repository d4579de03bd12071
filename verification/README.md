# ggml

Tensor element types, memory layout, dequantization, operator kernels and a
reader for GGUF model files, written in Verus: every function of the library
states in its contract what it computes and is proved to compute it.

- `src/types.rs`, `src/layout.rs`: element types, their block sizes, and the
  strides of a contiguous tensor.
- `src/gguf/`: the GGUF container. `bytes`, `field`, `grammar` and `header` say
  what bytes stand for which header, `reader` and `file` read it, and `laws`
  states what holds of the format as a whole: what was written is read back, a
  file cut short is refused, bytes behind the header do not matter.
- `src/ieee.rs`: what binary16, binary32 and binary64 bit patterns stand for,
  and the lossless conversions between them. The library holds floating-point
  numbers as bit patterns.
- `src/arith.rs`: the arithmetic that kernels are built on, supplied by the
  caller. A contract says which operations were done on which elements and in
  which order.
- `src/dequant.rs`, `src/ops/`: the kernels. `ops::matmul` shares its rows out
  among the threads of a rayon pool; its result does not depend on how.
- `app/`: the kernels on `f32` slices, entries that test what the library
  requires, and reading files from disk.

Two functions are trusted, each a wrapper around one call: `string_from_utf8`
in `src/gguf/reader.rs` and `matmul_rows_in_parallel` in `src/ops/matmul.rs`.
