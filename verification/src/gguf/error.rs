//! What can go wrong while reading a GGUF file.

use vstd::prelude::*;

use crate::decimal;

verus! {

/// Errors produced while parsing a GGUF file.
#[derive(Clone, Copy, PartialEq, Eq, Debug)]
pub enum GgufError {
    /// The file does not start with `"GGUF"`.
    BadMagic([u8; 4]),
    /// The version is not one that this reader supports.
    UnsupportedVersion(u32),
    /// Tried to read past the end of the buffer.
    UnexpectedEof { needed: usize, available: usize },
    /// A string was not valid UTF-8.
    InvalidUtf8,
    /// A metadata value used an unknown value-type code.
    UnknownValueType(u32),
    /// A metadata value was an array of arrays, which GGUF forbids.
    NestedArray,
    /// A tensor declared an unknown or retired element type.
    UnknownTensorType(i32),
    /// A tensor declared no dimensions.
    NoDims,
    /// A tensor declared more than `GGML_MAX_DIMS` dimensions.
    TooManyDims(u32),
    /// A length or count field was negative.
    NegativeLength(i64),
}

impl GgufError {
    /// The text of the message.
    pub open spec fn text(self) -> Seq<char> {
        match self {
            GgufError::BadMagic(m) => {
                "bad GGUF magic: ["@ + decimal::decimal(m[0] as nat) + ", "@ + decimal::decimal(
                    m[1] as nat,
                ) + ", "@ + decimal::decimal(m[2] as nat) + ", "@ + decimal::decimal(m[3] as nat)
                    + "] (expected \"GGUF\")"@
            },
            GgufError::UnsupportedVersion(v) => {
                "unsupported GGUF version: "@ + decimal::decimal(v as nat)
            },
            GgufError::UnexpectedEof { needed, available } => {
                "unexpected end of file: needed "@ + decimal::decimal(needed as nat) + " bytes, "@
                    + decimal::decimal(available as nat) + " available"@
            },
            GgufError::InvalidUtf8 => "string was not valid UTF-8"@,
            GgufError::UnknownValueType(t) => {
                "unknown gguf value type: "@ + decimal::decimal(t as nat)
            },
            GgufError::NestedArray => "nested arrays are not permitted in GGUF"@,
            GgufError::UnknownTensorType(t) => {
                "unknown/removed ggml tensor type: "@ + decimal::signed_decimal(t as int)
            },
            GgufError::NoDims => "tensor has no dimensions"@,
            GgufError::TooManyDims(n) => {
                "tensor has too many dimensions: "@ + decimal::decimal(n as nat)
            },
            GgufError::NegativeLength(n) => {
                "negative length/count field: "@ + decimal::signed_decimal(n as int)
            },
        }
    }

    /// The message that tells a reader what went wrong.
    pub fn message(&self) -> (r: String)
        ensures
            r@ == self.text(),
            r@ == match *self {
                GgufError::BadMagic(m) => {
                    "bad GGUF magic: ["@ + decimal::decimal(m[0] as nat) + ", "@ + decimal::decimal(
                        m[1] as nat,
                    ) + ", "@ + decimal::decimal(m[2] as nat) + ", "@ + decimal::decimal(m[3] as nat)
                        + "] (expected \"GGUF\")"@
                },
                GgufError::UnsupportedVersion(v) => {
                    "unsupported GGUF version: "@ + decimal::decimal(v as nat)
                },
                GgufError::UnexpectedEof { needed, available } => {
                    "unexpected end of file: needed "@ + decimal::decimal(needed as nat) + " bytes, "@
                        + decimal::decimal(available as nat) + " available"@
                },
                GgufError::InvalidUtf8 => "string was not valid UTF-8"@,
                GgufError::UnknownValueType(t) => {
                    "unknown gguf value type: "@ + decimal::decimal(t as nat)
                },
                GgufError::NestedArray => "nested arrays are not permitted in GGUF"@,
                GgufError::UnknownTensorType(t) => {
                    "unknown/removed ggml tensor type: "@ + decimal::signed_decimal(t as int)
                },
                GgufError::NoDims => "tensor has no dimensions"@,
                GgufError::TooManyDims(n) => {
                    "tensor has too many dimensions: "@ + decimal::decimal(n as nat)
                },
                GgufError::NegativeLength(n) => {
                    "negative length/count field: "@ + decimal::signed_decimal(n as int)
                },
            },
    {
        let mut out = String::new();
        match *self {
            GgufError::BadMagic(m) => {
                out.append("bad GGUF magic: [");
                decimal::append_decimal(&mut out, m[0] as u64);
                out.append(", ");
                decimal::append_decimal(&mut out, m[1] as u64);
                out.append(", ");
                decimal::append_decimal(&mut out, m[2] as u64);
                out.append(", ");
                decimal::append_decimal(&mut out, m[3] as u64);
                out.append("] (expected \"GGUF\")");
            },
            GgufError::UnsupportedVersion(v) => {
                out.append("unsupported GGUF version: ");
                decimal::append_decimal(&mut out, v as u64);
            },
            GgufError::UnexpectedEof { needed, available } => {
                out.append("unexpected end of file: needed ");
                decimal::append_decimal(&mut out, needed as u64);
                out.append(" bytes, ");
                decimal::append_decimal(&mut out, available as u64);
                out.append(" available");
            },
            GgufError::InvalidUtf8 => {
                out.append("string was not valid UTF-8");
            },
            GgufError::UnknownValueType(t) => {
                out.append("unknown gguf value type: ");
                decimal::append_decimal(&mut out, t as u64);
            },
            GgufError::NestedArray => {
                out.append("nested arrays are not permitted in GGUF");
            },
            GgufError::UnknownTensorType(t) => {
                out.append("unknown/removed ggml tensor type: ");
                decimal::append_signed_decimal(&mut out, t as i64);
            },
            GgufError::NoDims => {
                out.append("tensor has no dimensions");
            },
            GgufError::TooManyDims(n) => {
                out.append("tensor has too many dimensions: ");
                decimal::append_decimal(&mut out, n as u64);
            },
            GgufError::NegativeLength(n) => {
                out.append("negative length/count field: ");
                decimal::append_signed_decimal(&mut out, n);
            },
        }
        assert(out@ =~= self.text());
        out
    }
}

/// The text of each message.
pub proof fn law_texts(e: GgufError)
    ensures
        e.text() == match e {
            GgufError::BadMagic(m) => {
                "bad GGUF magic: ["@ + decimal::decimal(m[0] as nat) + ", "@ + decimal::decimal(
                    m[1] as nat,
                ) + ", "@ + decimal::decimal(m[2] as nat) + ", "@ + decimal::decimal(m[3] as nat)
                    + "] (expected \"GGUF\")"@
            },
            GgufError::UnsupportedVersion(v) => {
                "unsupported GGUF version: "@ + decimal::decimal(v as nat)
            },
            GgufError::UnexpectedEof { needed, available } => {
                "unexpected end of file: needed "@ + decimal::decimal(needed as nat) + " bytes, "@
                    + decimal::decimal(available as nat) + " available"@
            },
            GgufError::InvalidUtf8 => "string was not valid UTF-8"@,
            GgufError::UnknownValueType(t) => {
                "unknown gguf value type: "@ + decimal::decimal(t as nat)
            },
            GgufError::NestedArray => "nested arrays are not permitted in GGUF"@,
            GgufError::UnknownTensorType(t) => {
                "unknown/removed ggml tensor type: "@ + decimal::signed_decimal(t as int)
            },
            GgufError::NoDims => "tensor has no dimensions"@,
            GgufError::TooManyDims(n) => {
                "tensor has too many dimensions: "@ + decimal::decimal(n as nat)
            },
            GgufError::NegativeLength(n) => {
                "negative length/count field: "@ + decimal::signed_decimal(n as int)
            },
        },
{
}

} // verus!
