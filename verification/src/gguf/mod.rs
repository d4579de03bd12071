//! The GGUF container: a reader for the header, the metadata and the tensor
//! table of a model file.
//!
//! The layout, little-endian throughout, is:
//!
//! ```text
//! magic "GGUF" | version:u32 | n_tensors:i64 | n_kv:i64
//! n_kv  x key-value metadata pairs
//! n_tensors x tensor-info records (name, dims, type, offset)
//! [padding to alignment] tensor data blob
//! ```
//!
//! The data blob is not read; [`Gguf::data_offset`] tells where it begins.

pub mod bytes;
pub mod error;
pub mod field;
pub mod file;
pub mod format_laws;
pub mod grammar;
pub mod header;
pub mod laws;
pub mod reader;
pub mod tensor;
pub mod value;

pub use error::GgufError;
pub use file::Gguf;
pub use header::{
    GGUF_DEFAULT_ALIGNMENT, GGUF_KEY_ALIGNMENT, GGUF_MAGIC, GGUF_VERSION, GGUF_VERSION_MIN,
};
pub use tensor::TensorInfo;
pub use value::{Array, Value};
