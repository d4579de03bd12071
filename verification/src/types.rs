//! Tensor element types.
//!
//! Each type packs a fixed number of elements into a block of a fixed number
//! of bytes; plain scalar types have one element to the block. The integer
//! code of a type is the one that a GGUF tensor record carries on disk. Codes
//! of retired types (4, 5, 31 to 33, 36 to 38) are left unused.

use vstd::prelude::*;

verus! {

/// Maximum number of tensor dimensions.
pub const GGML_MAX_DIMS: usize = 4;

/// Tensor element type.
#[allow(non_camel_case_types)]
#[derive(Clone, Copy, PartialEq, Eq, Structural, Hash, Debug)]
pub enum GgmlType {
    F32,
    F16,
    Q4_0,
    Q4_1,
    Q5_0,
    Q5_1,
    Q8_0,
    Q8_1,
    Q2_K,
    Q3_K,
    Q4_K,
    Q5_K,
    Q6_K,
    Q8_K,
    IQ2_XXS,
    IQ2_XS,
    IQ3_XXS,
    IQ1_S,
    IQ4_NL,
    IQ3_S,
    IQ2_S,
    IQ4_XS,
    I8,
    I16,
    I32,
    I64,
    F64,
    IQ1_M,
    BF16,
    TQ1_0,
    TQ2_0,
    MXFP4,
    NVFP4,
    Q1_0,
}

impl GgmlType {
    /// Every type, in ascending order of code.
    pub const ALL: [GgmlType; 34] = [
        GgmlType::F32,
        GgmlType::F16,
        GgmlType::Q4_0,
        GgmlType::Q4_1,
        GgmlType::Q5_0,
        GgmlType::Q5_1,
        GgmlType::Q8_0,
        GgmlType::Q8_1,
        GgmlType::Q2_K,
        GgmlType::Q3_K,
        GgmlType::Q4_K,
        GgmlType::Q5_K,
        GgmlType::Q6_K,
        GgmlType::Q8_K,
        GgmlType::IQ2_XXS,
        GgmlType::IQ2_XS,
        GgmlType::IQ3_XXS,
        GgmlType::IQ1_S,
        GgmlType::IQ4_NL,
        GgmlType::IQ3_S,
        GgmlType::IQ2_S,
        GgmlType::IQ4_XS,
        GgmlType::I8,
        GgmlType::I16,
        GgmlType::I32,
        GgmlType::I64,
        GgmlType::F64,
        GgmlType::IQ1_M,
        GgmlType::BF16,
        GgmlType::TQ1_0,
        GgmlType::TQ2_0,
        GgmlType::MXFP4,
        GgmlType::NVFP4,
        GgmlType::Q1_0,
    ];

    /// The integer that stands for this type on disk.
    pub open spec fn code(self) -> i32 {
        match self {
            GgmlType::F32 => 0,
            GgmlType::F16 => 1,
            GgmlType::Q4_0 => 2,
            GgmlType::Q4_1 => 3,
            GgmlType::Q5_0 => 6,
            GgmlType::Q5_1 => 7,
            GgmlType::Q8_0 => 8,
            GgmlType::Q8_1 => 9,
            GgmlType::Q2_K => 10,
            GgmlType::Q3_K => 11,
            GgmlType::Q4_K => 12,
            GgmlType::Q5_K => 13,
            GgmlType::Q6_K => 14,
            GgmlType::Q8_K => 15,
            GgmlType::IQ2_XXS => 16,
            GgmlType::IQ2_XS => 17,
            GgmlType::IQ3_XXS => 18,
            GgmlType::IQ1_S => 19,
            GgmlType::IQ4_NL => 20,
            GgmlType::IQ3_S => 21,
            GgmlType::IQ2_S => 22,
            GgmlType::IQ4_XS => 23,
            GgmlType::I8 => 24,
            GgmlType::I16 => 25,
            GgmlType::I32 => 26,
            GgmlType::I64 => 27,
            GgmlType::F64 => 28,
            GgmlType::IQ1_M => 29,
            GgmlType::BF16 => 30,
            GgmlType::TQ1_0 => 34,
            GgmlType::TQ2_0 => 35,
            GgmlType::MXFP4 => 39,
            GgmlType::NVFP4 => 40,
            GgmlType::Q1_0 => 41,
        }
    }

    /// The canonical name of this type.
    pub open spec fn canonical_name(self) -> Seq<char> {
        match self {
            GgmlType::F32 => "f32"@,
            GgmlType::F16 => "f16"@,
            GgmlType::Q4_0 => "q4_0"@,
            GgmlType::Q4_1 => "q4_1"@,
            GgmlType::Q5_0 => "q5_0"@,
            GgmlType::Q5_1 => "q5_1"@,
            GgmlType::Q8_0 => "q8_0"@,
            GgmlType::Q8_1 => "q8_1"@,
            GgmlType::Q2_K => "q2_K"@,
            GgmlType::Q3_K => "q3_K"@,
            GgmlType::Q4_K => "q4_K"@,
            GgmlType::Q5_K => "q5_K"@,
            GgmlType::Q6_K => "q6_K"@,
            GgmlType::Q8_K => "q8_K"@,
            GgmlType::IQ2_XXS => "iq2_xxs"@,
            GgmlType::IQ2_XS => "iq2_xs"@,
            GgmlType::IQ3_XXS => "iq3_xxs"@,
            GgmlType::IQ1_S => "iq1_s"@,
            GgmlType::IQ4_NL => "iq4_nl"@,
            GgmlType::IQ3_S => "iq3_s"@,
            GgmlType::IQ2_S => "iq2_s"@,
            GgmlType::IQ4_XS => "iq4_xs"@,
            GgmlType::I8 => "i8"@,
            GgmlType::I16 => "i16"@,
            GgmlType::I32 => "i32"@,
            GgmlType::I64 => "i64"@,
            GgmlType::F64 => "f64"@,
            GgmlType::IQ1_M => "iq1_m"@,
            GgmlType::BF16 => "bf16"@,
            GgmlType::TQ1_0 => "tq1_0"@,
            GgmlType::TQ2_0 => "tq2_0"@,
            GgmlType::MXFP4 => "mxfp4"@,
            GgmlType::NVFP4 => "nvfp4"@,
            GgmlType::Q1_0 => "q1_0"@,
        }
    }

    /// Number of elements in one block of this type.
    pub open spec fn elements_per_block(self) -> int {
        match self {
            GgmlType::F32 => 1,
            GgmlType::F16 => 1,
            GgmlType::Q4_0 => 32,
            GgmlType::Q4_1 => 32,
            GgmlType::Q5_0 => 32,
            GgmlType::Q5_1 => 32,
            GgmlType::Q8_0 => 32,
            GgmlType::Q8_1 => 32,
            GgmlType::Q2_K => 256,
            GgmlType::Q3_K => 256,
            GgmlType::Q4_K => 256,
            GgmlType::Q5_K => 256,
            GgmlType::Q6_K => 256,
            GgmlType::Q8_K => 256,
            GgmlType::IQ2_XXS => 256,
            GgmlType::IQ2_XS => 256,
            GgmlType::IQ3_XXS => 256,
            GgmlType::IQ1_S => 256,
            GgmlType::IQ4_NL => 32,
            GgmlType::IQ3_S => 256,
            GgmlType::IQ2_S => 256,
            GgmlType::IQ4_XS => 256,
            GgmlType::I8 => 1,
            GgmlType::I16 => 1,
            GgmlType::I32 => 1,
            GgmlType::I64 => 1,
            GgmlType::F64 => 1,
            GgmlType::IQ1_M => 256,
            GgmlType::BF16 => 1,
            GgmlType::TQ1_0 => 256,
            GgmlType::TQ2_0 => 256,
            GgmlType::MXFP4 => 32,
            GgmlType::NVFP4 => 64,
            GgmlType::Q1_0 => 128,
        }
    }

    /// Number of bytes in one block of this type.
    pub open spec fn bytes_per_block(self) -> int {
        match self {
            GgmlType::F32 => 4,
            GgmlType::F16 => 2,
            GgmlType::Q4_0 => 18,
            GgmlType::Q4_1 => 20,
            GgmlType::Q5_0 => 22,
            GgmlType::Q5_1 => 24,
            GgmlType::Q8_0 => 34,
            GgmlType::Q8_1 => 36,
            GgmlType::Q2_K => 84,
            GgmlType::Q3_K => 110,
            GgmlType::Q4_K => 144,
            GgmlType::Q5_K => 176,
            GgmlType::Q6_K => 210,
            GgmlType::Q8_K => 292,
            GgmlType::IQ2_XXS => 66,
            GgmlType::IQ2_XS => 74,
            GgmlType::IQ3_XXS => 98,
            GgmlType::IQ1_S => 50,
            GgmlType::IQ4_NL => 18,
            GgmlType::IQ3_S => 110,
            GgmlType::IQ2_S => 82,
            GgmlType::IQ4_XS => 136,
            GgmlType::I8 => 1,
            GgmlType::I16 => 2,
            GgmlType::I32 => 4,
            GgmlType::I64 => 8,
            GgmlType::F64 => 8,
            GgmlType::IQ1_M => 56,
            GgmlType::BF16 => 2,
            GgmlType::TQ1_0 => 54,
            GgmlType::TQ2_0 => 66,
            GgmlType::MXFP4 => 17,
            GgmlType::NVFP4 => 36,
            GgmlType::Q1_0 => 18,
        }
    }

    /// Number of bytes in a row of `ne` elements.
    pub open spec fn row_bytes(self, ne: i64) -> int {
        self.bytes_per_block() * (ne as usize) / self.elements_per_block()
    }

    /// The integer that stands for this type on disk.
    pub fn to_i32(self) -> (r: i32)
        ensures
            r == self.code(),
            r == match self {
                GgmlType::F32 => 0int,
                GgmlType::F16 => 1int,
                GgmlType::Q4_0 => 2int,
                GgmlType::Q4_1 => 3int,
                GgmlType::Q5_0 => 6int,
                GgmlType::Q5_1 => 7int,
                GgmlType::Q8_0 => 8int,
                GgmlType::Q8_1 => 9int,
                GgmlType::Q2_K => 10int,
                GgmlType::Q3_K => 11int,
                GgmlType::Q4_K => 12int,
                GgmlType::Q5_K => 13int,
                GgmlType::Q6_K => 14int,
                GgmlType::Q8_K => 15int,
                GgmlType::IQ2_XXS => 16int,
                GgmlType::IQ2_XS => 17int,
                GgmlType::IQ3_XXS => 18int,
                GgmlType::IQ1_S => 19int,
                GgmlType::IQ4_NL => 20int,
                GgmlType::IQ3_S => 21int,
                GgmlType::IQ2_S => 22int,
                GgmlType::IQ4_XS => 23int,
                GgmlType::I8 => 24int,
                GgmlType::I16 => 25int,
                GgmlType::I32 => 26int,
                GgmlType::I64 => 27int,
                GgmlType::F64 => 28int,
                GgmlType::IQ1_M => 29int,
                GgmlType::BF16 => 30int,
                GgmlType::TQ1_0 => 34int,
                GgmlType::TQ2_0 => 35int,
                GgmlType::MXFP4 => 39int,
                GgmlType::NVFP4 => 40int,
                GgmlType::Q1_0 => 41int,
            },
    {
        match self {
            GgmlType::F32 => 0,
            GgmlType::F16 => 1,
            GgmlType::Q4_0 => 2,
            GgmlType::Q4_1 => 3,
            GgmlType::Q5_0 => 6,
            GgmlType::Q5_1 => 7,
            GgmlType::Q8_0 => 8,
            GgmlType::Q8_1 => 9,
            GgmlType::Q2_K => 10,
            GgmlType::Q3_K => 11,
            GgmlType::Q4_K => 12,
            GgmlType::Q5_K => 13,
            GgmlType::Q6_K => 14,
            GgmlType::Q8_K => 15,
            GgmlType::IQ2_XXS => 16,
            GgmlType::IQ2_XS => 17,
            GgmlType::IQ3_XXS => 18,
            GgmlType::IQ1_S => 19,
            GgmlType::IQ4_NL => 20,
            GgmlType::IQ3_S => 21,
            GgmlType::IQ2_S => 22,
            GgmlType::IQ4_XS => 23,
            GgmlType::I8 => 24,
            GgmlType::I16 => 25,
            GgmlType::I32 => 26,
            GgmlType::I64 => 27,
            GgmlType::F64 => 28,
            GgmlType::IQ1_M => 29,
            GgmlType::BF16 => 30,
            GgmlType::TQ1_0 => 34,
            GgmlType::TQ2_0 => 35,
            GgmlType::MXFP4 => 39,
            GgmlType::NVFP4 => 40,
            GgmlType::Q1_0 => 41,
        }
    }

    /// Decode the on-disk integer into a type; `None` for a code that no type
    /// has.
    pub fn from_i32(v: i32) -> (r: Option<Self>)
        ensures
            r matches Some(t) ==> t.code() == v,
            forall|t: GgmlType| #[trigger] t.code() == v ==> r == Some(t),
            r == match v {
                0i32 => Some(GgmlType::F32),
                1i32 => Some(GgmlType::F16),
                2i32 => Some(GgmlType::Q4_0),
                3i32 => Some(GgmlType::Q4_1),
                6i32 => Some(GgmlType::Q5_0),
                7i32 => Some(GgmlType::Q5_1),
                8i32 => Some(GgmlType::Q8_0),
                9i32 => Some(GgmlType::Q8_1),
                10i32 => Some(GgmlType::Q2_K),
                11i32 => Some(GgmlType::Q3_K),
                12i32 => Some(GgmlType::Q4_K),
                13i32 => Some(GgmlType::Q5_K),
                14i32 => Some(GgmlType::Q6_K),
                15i32 => Some(GgmlType::Q8_K),
                16i32 => Some(GgmlType::IQ2_XXS),
                17i32 => Some(GgmlType::IQ2_XS),
                18i32 => Some(GgmlType::IQ3_XXS),
                19i32 => Some(GgmlType::IQ1_S),
                20i32 => Some(GgmlType::IQ4_NL),
                21i32 => Some(GgmlType::IQ3_S),
                22i32 => Some(GgmlType::IQ2_S),
                23i32 => Some(GgmlType::IQ4_XS),
                24i32 => Some(GgmlType::I8),
                25i32 => Some(GgmlType::I16),
                26i32 => Some(GgmlType::I32),
                27i32 => Some(GgmlType::I64),
                28i32 => Some(GgmlType::F64),
                29i32 => Some(GgmlType::IQ1_M),
                30i32 => Some(GgmlType::BF16),
                34i32 => Some(GgmlType::TQ1_0),
                35i32 => Some(GgmlType::TQ2_0),
                39i32 => Some(GgmlType::MXFP4),
                40i32 => Some(GgmlType::NVFP4),
                41i32 => Some(GgmlType::Q1_0),
                _ => None,
            },
    {
        match v {
            0 => Some(GgmlType::F32),
            1 => Some(GgmlType::F16),
            2 => Some(GgmlType::Q4_0),
            3 => Some(GgmlType::Q4_1),
            6 => Some(GgmlType::Q5_0),
            7 => Some(GgmlType::Q5_1),
            8 => Some(GgmlType::Q8_0),
            9 => Some(GgmlType::Q8_1),
            10 => Some(GgmlType::Q2_K),
            11 => Some(GgmlType::Q3_K),
            12 => Some(GgmlType::Q4_K),
            13 => Some(GgmlType::Q5_K),
            14 => Some(GgmlType::Q6_K),
            15 => Some(GgmlType::Q8_K),
            16 => Some(GgmlType::IQ2_XXS),
            17 => Some(GgmlType::IQ2_XS),
            18 => Some(GgmlType::IQ3_XXS),
            19 => Some(GgmlType::IQ1_S),
            20 => Some(GgmlType::IQ4_NL),
            21 => Some(GgmlType::IQ3_S),
            22 => Some(GgmlType::IQ2_S),
            23 => Some(GgmlType::IQ4_XS),
            24 => Some(GgmlType::I8),
            25 => Some(GgmlType::I16),
            26 => Some(GgmlType::I32),
            27 => Some(GgmlType::I64),
            28 => Some(GgmlType::F64),
            29 => Some(GgmlType::IQ1_M),
            30 => Some(GgmlType::BF16),
            34 => Some(GgmlType::TQ1_0),
            35 => Some(GgmlType::TQ2_0),
            39 => Some(GgmlType::MXFP4),
            40 => Some(GgmlType::NVFP4),
            41 => Some(GgmlType::Q1_0),
            _ => None,
        }
    }

    /// Canonical name of the type, such as `"q4_K"`.
    pub fn name(self) -> (r: &'static str)
        ensures
            r@ == self.canonical_name(),
            r@ == match self {
                GgmlType::F32 => "f32"@,
                GgmlType::F16 => "f16"@,
                GgmlType::Q4_0 => "q4_0"@,
                GgmlType::Q4_1 => "q4_1"@,
                GgmlType::Q5_0 => "q5_0"@,
                GgmlType::Q5_1 => "q5_1"@,
                GgmlType::Q8_0 => "q8_0"@,
                GgmlType::Q8_1 => "q8_1"@,
                GgmlType::Q2_K => "q2_K"@,
                GgmlType::Q3_K => "q3_K"@,
                GgmlType::Q4_K => "q4_K"@,
                GgmlType::Q5_K => "q5_K"@,
                GgmlType::Q6_K => "q6_K"@,
                GgmlType::Q8_K => "q8_K"@,
                GgmlType::IQ2_XXS => "iq2_xxs"@,
                GgmlType::IQ2_XS => "iq2_xs"@,
                GgmlType::IQ3_XXS => "iq3_xxs"@,
                GgmlType::IQ1_S => "iq1_s"@,
                GgmlType::IQ4_NL => "iq4_nl"@,
                GgmlType::IQ3_S => "iq3_s"@,
                GgmlType::IQ2_S => "iq2_s"@,
                GgmlType::IQ4_XS => "iq4_xs"@,
                GgmlType::I8 => "i8"@,
                GgmlType::I16 => "i16"@,
                GgmlType::I32 => "i32"@,
                GgmlType::I64 => "i64"@,
                GgmlType::F64 => "f64"@,
                GgmlType::IQ1_M => "iq1_m"@,
                GgmlType::BF16 => "bf16"@,
                GgmlType::TQ1_0 => "tq1_0"@,
                GgmlType::TQ2_0 => "tq2_0"@,
                GgmlType::MXFP4 => "mxfp4"@,
                GgmlType::NVFP4 => "nvfp4"@,
                GgmlType::Q1_0 => "q1_0"@,
            },
    {
        match self {
            GgmlType::F32 => "f32",
            GgmlType::F16 => "f16",
            GgmlType::Q4_0 => "q4_0",
            GgmlType::Q4_1 => "q4_1",
            GgmlType::Q5_0 => "q5_0",
            GgmlType::Q5_1 => "q5_1",
            GgmlType::Q8_0 => "q8_0",
            GgmlType::Q8_1 => "q8_1",
            GgmlType::Q2_K => "q2_K",
            GgmlType::Q3_K => "q3_K",
            GgmlType::Q4_K => "q4_K",
            GgmlType::Q5_K => "q5_K",
            GgmlType::Q6_K => "q6_K",
            GgmlType::Q8_K => "q8_K",
            GgmlType::IQ2_XXS => "iq2_xxs",
            GgmlType::IQ2_XS => "iq2_xs",
            GgmlType::IQ3_XXS => "iq3_xxs",
            GgmlType::IQ1_S => "iq1_s",
            GgmlType::IQ4_NL => "iq4_nl",
            GgmlType::IQ3_S => "iq3_s",
            GgmlType::IQ2_S => "iq2_s",
            GgmlType::IQ4_XS => "iq4_xs",
            GgmlType::I8 => "i8",
            GgmlType::I16 => "i16",
            GgmlType::I32 => "i32",
            GgmlType::I64 => "i64",
            GgmlType::F64 => "f64",
            GgmlType::IQ1_M => "iq1_m",
            GgmlType::BF16 => "bf16",
            GgmlType::TQ1_0 => "tq1_0",
            GgmlType::TQ2_0 => "tq2_0",
            GgmlType::MXFP4 => "mxfp4",
            GgmlType::NVFP4 => "nvfp4",
            GgmlType::Q1_0 => "q1_0",
        }
    }

    /// Number of elements packed into one block.
    pub fn block_size(self) -> (r: i64)
        ensures
            r == self.elements_per_block(),
            r == match self {
                GgmlType::F32
                | GgmlType::F16
                | GgmlType::I8
                | GgmlType::I16
                | GgmlType::I32
                | GgmlType::I64
                | GgmlType::F64
                | GgmlType::BF16 => 1int,
                GgmlType::Q4_0
                | GgmlType::Q4_1
                | GgmlType::Q5_0
                | GgmlType::Q5_1
                | GgmlType::Q8_0
                | GgmlType::Q8_1
                | GgmlType::IQ4_NL
                | GgmlType::MXFP4 => 32int,
                GgmlType::NVFP4 => 64int,
                GgmlType::Q1_0 => 128int,
                GgmlType::Q2_K
                | GgmlType::Q3_K
                | GgmlType::Q4_K
                | GgmlType::Q5_K
                | GgmlType::Q6_K
                | GgmlType::Q8_K
                | GgmlType::IQ2_XXS
                | GgmlType::IQ2_XS
                | GgmlType::IQ3_XXS
                | GgmlType::IQ1_S
                | GgmlType::IQ3_S
                | GgmlType::IQ2_S
                | GgmlType::IQ4_XS
                | GgmlType::IQ1_M
                | GgmlType::TQ1_0
                | GgmlType::TQ2_0 => 256int,
            },
    {
        match self {
            GgmlType::F32
            | GgmlType::F16
            | GgmlType::I8
            | GgmlType::I16
            | GgmlType::I32
            | GgmlType::I64
            | GgmlType::F64
            | GgmlType::BF16 => 1,
            GgmlType::Q4_0
            | GgmlType::Q4_1
            | GgmlType::Q5_0
            | GgmlType::Q5_1
            | GgmlType::Q8_0
            | GgmlType::Q8_1
            | GgmlType::IQ4_NL
            | GgmlType::MXFP4 => 32,
            GgmlType::NVFP4 => 64,
            GgmlType::Q1_0 => 128,
            GgmlType::Q2_K
            | GgmlType::Q3_K
            | GgmlType::Q4_K
            | GgmlType::Q5_K
            | GgmlType::Q6_K
            | GgmlType::Q8_K
            | GgmlType::IQ2_XXS
            | GgmlType::IQ2_XS
            | GgmlType::IQ3_XXS
            | GgmlType::IQ1_S
            | GgmlType::IQ3_S
            | GgmlType::IQ2_S
            | GgmlType::IQ4_XS
            | GgmlType::IQ1_M
            | GgmlType::TQ1_0
            | GgmlType::TQ2_0 => 256,
        }
    }

    /// Size in bytes of one block.
    pub fn type_size(self) -> (r: usize)
        ensures
            r == self.bytes_per_block(),
            r == match self {
                GgmlType::I8 => 1int,
                GgmlType::F16
                | GgmlType::I16
                | GgmlType::BF16 => 2int,
                GgmlType::F32
                | GgmlType::I32 => 4int,
                GgmlType::I64
                | GgmlType::F64 => 8int,
                GgmlType::MXFP4 => 17int,
                GgmlType::Q4_0
                | GgmlType::IQ4_NL
                | GgmlType::Q1_0 => 18int,
                GgmlType::Q4_1 => 20int,
                GgmlType::Q5_0 => 22int,
                GgmlType::Q5_1 => 24int,
                GgmlType::Q8_0 => 34int,
                GgmlType::Q8_1
                | GgmlType::NVFP4 => 36int,
                GgmlType::IQ1_S => 50int,
                GgmlType::TQ1_0 => 54int,
                GgmlType::IQ1_M => 56int,
                GgmlType::IQ2_XXS
                | GgmlType::TQ2_0 => 66int,
                GgmlType::IQ2_XS => 74int,
                GgmlType::IQ2_S => 82int,
                GgmlType::Q2_K => 84int,
                GgmlType::IQ3_XXS => 98int,
                GgmlType::Q3_K
                | GgmlType::IQ3_S => 110int,
                GgmlType::IQ4_XS => 136int,
                GgmlType::Q4_K => 144int,
                GgmlType::Q5_K => 176int,
                GgmlType::Q6_K => 210int,
                GgmlType::Q8_K => 292int,
            },
    {
        match self {
            GgmlType::I8 => 1,
            GgmlType::F16
            | GgmlType::I16
            | GgmlType::BF16 => 2,
            GgmlType::F32
            | GgmlType::I32 => 4,
            GgmlType::I64
            | GgmlType::F64 => 8,
            GgmlType::MXFP4 => 17,
            GgmlType::Q4_0
            | GgmlType::IQ4_NL
            | GgmlType::Q1_0 => 18,
            GgmlType::Q4_1 => 20,
            GgmlType::Q5_0 => 22,
            GgmlType::Q5_1 => 24,
            GgmlType::Q8_0 => 34,
            GgmlType::Q8_1
            | GgmlType::NVFP4 => 36,
            GgmlType::IQ1_S => 50,
            GgmlType::TQ1_0 => 54,
            GgmlType::IQ1_M => 56,
            GgmlType::IQ2_XXS
            | GgmlType::TQ2_0 => 66,
            GgmlType::IQ2_XS => 74,
            GgmlType::IQ2_S => 82,
            GgmlType::Q2_K => 84,
            GgmlType::IQ3_XXS => 98,
            GgmlType::Q3_K
            | GgmlType::IQ3_S => 110,
            GgmlType::IQ4_XS => 136,
            GgmlType::Q4_K => 144,
            GgmlType::Q5_K => 176,
            GgmlType::Q6_K => 210,
            GgmlType::Q8_K => 292,
        }
    }

    /// True for the quantized formats: those with more than one element to
    /// the block.
    pub fn is_quantized(self) -> (r: bool)
        ensures
            r == (self.elements_per_block() > 1),
            r == !(self is F32 || self is F16 || self is I8 || self is I16 || self is I32 || self is I64
                || self is F64 || self is BF16),
    {
        self.block_size() != 1
    }

    /// Bytes occupied by a contiguous row of `ne` elements.
    ///
    /// The row must be made of whole blocks.
    pub fn row_size(self, ne: i64) -> (r: usize)
        requires
            ne as int % self.elements_per_block() == 0,
            self.bytes_per_block() * (ne as usize) <= usize::MAX,
        ensures
            r == self.row_bytes(ne),
            0 <= ne <= usize::MAX ==> r == self.bytes_per_block() * (ne as int
                / self.elements_per_block()),
            0 <= ne <= usize::MAX ==> r * self.elements_per_block() == ne * self.bytes_per_block(),
    {
        let blck: usize = self.block_size() as usize;
        let bytes: usize = self.type_size() * (ne as usize);
        proof {
            if 0 <= ne <= usize::MAX {
                let block = self.elements_per_block();
                let size = self.bytes_per_block();
                lemma_whole_blocks(size, ne as int, block);
                vstd::arithmetic::div_mod::lemma_fundamental_div_mod(ne as int, block);
                let q = ne as int / block;
                assert((size * q) * block == (block * q) * size) by (nonlinear_arith);
            }
        }
        bytes / blck
    }
}

/// Scaling a whole number of blocks before or after the division by the block
/// size gives the same.
pub(crate) proof fn lemma_whole_blocks(bytes: int, n: int, block: int)
    requires
        bytes >= 0,
        n >= 0,
        block > 0,
        n % block == 0,
    ensures
        bytes * n / block == bytes * (n / block),
{
    vstd::arithmetic::div_mod::lemma_fundamental_div_mod(n, block);
    let q = n / block;
    assert(bytes * (block * q) == (bytes * q) * block) by (nonlinear_arith);
    assert(q >= 0) by {
        vstd::arithmetic::div_mod::lemma_div_pos_is_pos(n, block);
    }
    assert(bytes * q >= 0) by (nonlinear_arith)
        requires
            bytes >= 0,
            q >= 0,
    ;
    vstd::arithmetic::div_mod::lemma_div_by_multiple(bytes * q, block);
}

/// No two types share a code, so decoding the code of a type gives that type
/// back.
pub proof fn law_codes_are_distinct(a: GgmlType, b: GgmlType)
    ensures
        a.code() == b.code() ==> a == b,
{
}

/// The number that stands for each type on disk.
pub proof fn law_codes_are_fixed(t: GgmlType)
    ensures
        t.code() == match t {
            GgmlType::F32 => 0int,
            GgmlType::F16 => 1int,
            GgmlType::Q4_0 => 2int,
            GgmlType::Q4_1 => 3int,
            GgmlType::Q5_0 => 6int,
            GgmlType::Q5_1 => 7int,
            GgmlType::Q8_0 => 8int,
            GgmlType::Q8_1 => 9int,
            GgmlType::Q2_K => 10int,
            GgmlType::Q3_K => 11int,
            GgmlType::Q4_K => 12int,
            GgmlType::Q5_K => 13int,
            GgmlType::Q6_K => 14int,
            GgmlType::Q8_K => 15int,
            GgmlType::IQ2_XXS => 16int,
            GgmlType::IQ2_XS => 17int,
            GgmlType::IQ3_XXS => 18int,
            GgmlType::IQ1_S => 19int,
            GgmlType::IQ4_NL => 20int,
            GgmlType::IQ3_S => 21int,
            GgmlType::IQ2_S => 22int,
            GgmlType::IQ4_XS => 23int,
            GgmlType::I8 => 24int,
            GgmlType::I16 => 25int,
            GgmlType::I32 => 26int,
            GgmlType::I64 => 27int,
            GgmlType::F64 => 28int,
            GgmlType::IQ1_M => 29int,
            GgmlType::BF16 => 30int,
            GgmlType::TQ1_0 => 34int,
            GgmlType::TQ2_0 => 35int,
            GgmlType::MXFP4 => 39int,
            GgmlType::NVFP4 => 40int,
            GgmlType::Q1_0 => 41int,
        },
{
}

/// The name of each type.
pub proof fn law_names_are_fixed(t: GgmlType)
    ensures
        t.canonical_name() == match t {
            GgmlType::F32 => "f32"@,
            GgmlType::F16 => "f16"@,
            GgmlType::Q4_0 => "q4_0"@,
            GgmlType::Q4_1 => "q4_1"@,
            GgmlType::Q5_0 => "q5_0"@,
            GgmlType::Q5_1 => "q5_1"@,
            GgmlType::Q8_0 => "q8_0"@,
            GgmlType::Q8_1 => "q8_1"@,
            GgmlType::Q2_K => "q2_K"@,
            GgmlType::Q3_K => "q3_K"@,
            GgmlType::Q4_K => "q4_K"@,
            GgmlType::Q5_K => "q5_K"@,
            GgmlType::Q6_K => "q6_K"@,
            GgmlType::Q8_K => "q8_K"@,
            GgmlType::IQ2_XXS => "iq2_xxs"@,
            GgmlType::IQ2_XS => "iq2_xs"@,
            GgmlType::IQ3_XXS => "iq3_xxs"@,
            GgmlType::IQ1_S => "iq1_s"@,
            GgmlType::IQ4_NL => "iq4_nl"@,
            GgmlType::IQ3_S => "iq3_s"@,
            GgmlType::IQ2_S => "iq2_s"@,
            GgmlType::IQ4_XS => "iq4_xs"@,
            GgmlType::I8 => "i8"@,
            GgmlType::I16 => "i16"@,
            GgmlType::I32 => "i32"@,
            GgmlType::I64 => "i64"@,
            GgmlType::F64 => "f64"@,
            GgmlType::IQ1_M => "iq1_m"@,
            GgmlType::BF16 => "bf16"@,
            GgmlType::TQ1_0 => "tq1_0"@,
            GgmlType::TQ2_0 => "tq2_0"@,
            GgmlType::MXFP4 => "mxfp4"@,
            GgmlType::NVFP4 => "nvfp4"@,
            GgmlType::Q1_0 => "q1_0"@,
        },
{
}

/// How many elements and how many bytes a block of each type has.
pub proof fn law_blocks_are_fixed(t: GgmlType)
    ensures
        t.elements_per_block() == match t {
            GgmlType::F32 => 1int,
            GgmlType::F16 => 1int,
            GgmlType::Q4_0 => 32int,
            GgmlType::Q4_1 => 32int,
            GgmlType::Q5_0 => 32int,
            GgmlType::Q5_1 => 32int,
            GgmlType::Q8_0 => 32int,
            GgmlType::Q8_1 => 32int,
            GgmlType::Q2_K => 256int,
            GgmlType::Q3_K => 256int,
            GgmlType::Q4_K => 256int,
            GgmlType::Q5_K => 256int,
            GgmlType::Q6_K => 256int,
            GgmlType::Q8_K => 256int,
            GgmlType::IQ2_XXS => 256int,
            GgmlType::IQ2_XS => 256int,
            GgmlType::IQ3_XXS => 256int,
            GgmlType::IQ1_S => 256int,
            GgmlType::IQ4_NL => 32int,
            GgmlType::IQ3_S => 256int,
            GgmlType::IQ2_S => 256int,
            GgmlType::IQ4_XS => 256int,
            GgmlType::I8 => 1int,
            GgmlType::I16 => 1int,
            GgmlType::I32 => 1int,
            GgmlType::I64 => 1int,
            GgmlType::F64 => 1int,
            GgmlType::IQ1_M => 256int,
            GgmlType::BF16 => 1int,
            GgmlType::TQ1_0 => 256int,
            GgmlType::TQ2_0 => 256int,
            GgmlType::MXFP4 => 32int,
            GgmlType::NVFP4 => 64int,
            GgmlType::Q1_0 => 128int,
        },
        t.bytes_per_block() == match t {
            GgmlType::F32 => 4int,
            GgmlType::F16 => 2int,
            GgmlType::Q4_0 => 18int,
            GgmlType::Q4_1 => 20int,
            GgmlType::Q5_0 => 22int,
            GgmlType::Q5_1 => 24int,
            GgmlType::Q8_0 => 34int,
            GgmlType::Q8_1 => 36int,
            GgmlType::Q2_K => 84int,
            GgmlType::Q3_K => 110int,
            GgmlType::Q4_K => 144int,
            GgmlType::Q5_K => 176int,
            GgmlType::Q6_K => 210int,
            GgmlType::Q8_K => 292int,
            GgmlType::IQ2_XXS => 66int,
            GgmlType::IQ2_XS => 74int,
            GgmlType::IQ3_XXS => 98int,
            GgmlType::IQ1_S => 50int,
            GgmlType::IQ4_NL => 18int,
            GgmlType::IQ3_S => 110int,
            GgmlType::IQ2_S => 82int,
            GgmlType::IQ4_XS => 136int,
            GgmlType::I8 => 1int,
            GgmlType::I16 => 2int,
            GgmlType::I32 => 4int,
            GgmlType::I64 => 8int,
            GgmlType::F64 => 8int,
            GgmlType::IQ1_M => 56int,
            GgmlType::BF16 => 2int,
            GgmlType::TQ1_0 => 54int,
            GgmlType::TQ2_0 => 66int,
            GgmlType::MXFP4 => 17int,
            GgmlType::NVFP4 => 36int,
            GgmlType::Q1_0 => 18int,
        },
{
}

/// Rows of whole blocks: a row takes, for each block of elements, the bytes of a
/// block.
pub proof fn law_row_bytes(t: GgmlType, ne: i64)
    requires
        0 <= ne <= usize::MAX,
        ne as int % t.elements_per_block() == 0,
    ensures
        t.row_bytes(ne) * t.elements_per_block() == ne * t.bytes_per_block(),
{
    let block = t.elements_per_block();
    let size = t.bytes_per_block();
    lemma_whole_blocks(size, ne as int, block);
    vstd::arithmetic::div_mod::lemma_fundamental_div_mod(ne as int, block);
    let q = ne as int / block;
    assert((size * q) * block == (block * q) * size) by (nonlinear_arith);
}

/// No two types share a name.
pub proof fn law_names_are_distinct(a: GgmlType, b: GgmlType)
    ensures
        a.canonical_name() == b.canonical_name() ==> a == b,
{
    reveal_strlit("f32");
    reveal_strlit("f16");
    reveal_strlit("q4_0");
    reveal_strlit("q4_1");
    reveal_strlit("q5_0");
    reveal_strlit("q5_1");
    reveal_strlit("q8_0");
    reveal_strlit("q8_1");
    reveal_strlit("q2_K");
    reveal_strlit("q3_K");
    reveal_strlit("q4_K");
    reveal_strlit("q5_K");
    reveal_strlit("q6_K");
    reveal_strlit("q8_K");
    reveal_strlit("iq2_xxs");
    reveal_strlit("iq2_xs");
    reveal_strlit("iq3_xxs");
    reveal_strlit("iq1_s");
    reveal_strlit("iq4_nl");
    reveal_strlit("iq3_s");
    reveal_strlit("iq2_s");
    reveal_strlit("iq4_xs");
    reveal_strlit("i8");
    reveal_strlit("i16");
    reveal_strlit("i32");
    reveal_strlit("i64");
    reveal_strlit("f64");
    reveal_strlit("iq1_m");
    reveal_strlit("bf16");
    reveal_strlit("tq1_0");
    reveal_strlit("tq2_0");
    reveal_strlit("mxfp4");
    reveal_strlit("nvfp4");
    reveal_strlit("q1_0");
    let x = a.canonical_name();
    let y = b.canonical_name();
    if x == y {
        assert(x.len() == y.len());
        assert(x[0] == y[0] && x[1] == y[1] && x[2] == y[2] && x[3] == y[3] && x[4] == y[4] && x[5]
            == y[5] && x[6] == y[6]);
    }
}

/// `GgmlType::ALL` lists every type, in strictly ascending order of code.
pub proof fn law_all_is_complete_and_ascending()
    ensures
        forall|t: GgmlType| #[trigger] GgmlType::ALL@.contains(t),
        forall|i: int, j: int|
            0 <= i < j < 34 ==> (#[trigger] GgmlType::ALL@[i]).code() < (
            #[trigger] GgmlType::ALL@[j]).code(),
{
}

} // verus!
