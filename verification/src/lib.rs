//! Tensor element types, memory layout, dequantization, operator kernels and
//! the GGUF container reader.
//!
//! Every function states what it computes and is proved to compute it. The
//! kernels are generic in the arithmetic they are built on, see [`arith`].

pub mod arith;
pub mod decimal;
pub mod dequant;
pub mod gguf;
pub mod ieee;
pub mod layout;
pub mod ops;
pub mod rows;
pub mod types;

pub use dequant::{dequant_f16, dequant_q4_0, dequant_q8_0};
pub use layout::TensorLayout;
pub use ops::{
    add_inplace, matmul_f32, matmul_f32_serial, mul_inplace, rmsnorm, rope_inplace_neox, silu_inplace,
    softmax_inplace,
};
pub use types::{GgmlType, GGML_MAX_DIMS};
