//! Operator kernels.
//!
//! A kernel writes its result into a slice of the caller's. Those that work in
//! parallel do so over independent rows; a reduction within a row is always
//! done in order, by one thread.

pub mod add;
pub mod matmul;
pub mod mul;
pub mod rmsnorm;
pub mod rope;
pub mod silu;
pub mod softmax;

pub use add::add_inplace;
pub use matmul::{matmul_f32, matmul_f32_serial};
pub use mul::mul_inplace;
pub use rmsnorm::rmsnorm;
pub use rope::rope_inplace_neox;
pub use silu::silu_inplace;
pub use softmax::softmax_inplace;
