use ggml::gguf::{
    Array, Gguf, GgufError, TensorInfo, Value, GGUF_DEFAULT_ALIGNMENT, GGUF_KEY_ALIGNMENT,
    GGUF_MAGIC, GGUF_VERSION, GGUF_VERSION_MIN,
};
use ggml::GgmlType;

/// Build a minimal in-memory GGUF buffer for round-trip parsing tests.
struct Builder {
    kv: Vec<u8>,
    n_kv: i64,
    tensors: Vec<u8>,
    n_tensors: i64,
}

impl Builder {
    fn new() -> Self {
        Builder {
            kv: Vec::new(),
            n_kv: 0,
            tensors: Vec::new(),
            n_tensors: 0,
        }
    }

    fn push_str(buf: &mut Vec<u8>, s: &str) {
        buf.extend_from_slice(&(s.len() as u64).to_le_bytes());
        buf.extend_from_slice(s.as_bytes());
    }

    fn kv_u32(mut self, key: &str, val: u32) -> Self {
        Self::push_str(&mut self.kv, key);
        self.kv.extend_from_slice(&4u32.to_le_bytes()); // gguf type UINT32
        self.kv.extend_from_slice(&val.to_le_bytes());
        self.n_kv += 1;
        self
    }

    fn kv_string(mut self, key: &str, val: &str) -> Self {
        Self::push_str(&mut self.kv, key);
        self.kv.extend_from_slice(&8u32.to_le_bytes()); // gguf type STRING
        Self::push_str(&mut self.kv, val);
        self.n_kv += 1;
        self
    }

    fn kv_str_array(mut self, key: &str, vals: &[&str]) -> Self {
        Self::push_str(&mut self.kv, key);
        self.kv.extend_from_slice(&9u32.to_le_bytes()); // gguf type ARRAY
        self.kv.extend_from_slice(&8u32.to_le_bytes()); // element type STRING
        self.kv
            .extend_from_slice(&(vals.len() as u64).to_le_bytes());
        for v in vals {
            Self::push_str(&mut self.kv, v);
        }
        self.n_kv += 1;
        self
    }

    fn kv_raw(mut self, key: &str, ty: u32, bytes: &[u8]) -> Self {
        Self::push_str(&mut self.kv, key);
        self.kv.extend_from_slice(&ty.to_le_bytes());
        self.kv.extend_from_slice(bytes);
        self.n_kv += 1;
        self
    }

    fn tensor(mut self, name: &str, dims: &[i64], ty: GgmlType, offset: u64) -> Self {
        Self::push_str(&mut self.tensors, name);
        self.tensors
            .extend_from_slice(&(dims.len() as u32).to_le_bytes());
        for &d in dims {
            self.tensors.extend_from_slice(&d.to_le_bytes());
        }
        self.tensors.extend_from_slice(&(ty.to_i32()).to_le_bytes());
        self.tensors.extend_from_slice(&offset.to_le_bytes());
        self.n_tensors += 1;
        self
    }

    fn build(self) -> Vec<u8> {
        let mut out = Vec::new();
        out.extend_from_slice(&GGUF_MAGIC);
        out.extend_from_slice(&GGUF_VERSION.to_le_bytes());
        out.extend_from_slice(&self.n_tensors.to_le_bytes());
        out.extend_from_slice(&self.n_kv.to_le_bytes());
        out.extend_from_slice(&self.kv);
        out.extend_from_slice(&self.tensors);
        out
    }
}

#[test]
fn parses_scalar_string_and_array_metadata() {
    let buf = Builder::new()
        .kv_string("general.architecture", "llama")
        .kv_u32("llama.block_count", 32)
        .kv_str_array("tokenizer.ggml.tokens", &["<s>", "</s>", "hello"])
        .build();

    let g = Gguf::from_bytes(&buf).ok().unwrap();
    assert_eq!(g.version(), 3);
    assert_eq!(g.metadata().len(), 3);
    assert_eq!(g.get_str("general.architecture"), Some("llama"));
    assert_eq!(g.get_u64("llama.block_count"), Some(32));
    match g.get("tokenizer.ggml.tokens").and_then(Value::as_array) {
        Some(Array::String(v)) => assert_eq!(v, &["<s>", "</s>", "hello"]),
        other => panic!("expected string array, got {other:?}"),
    }
    // No tensors -> data offset is the unpadded end of metadata == file len.
    assert_eq!(g.data_offset() as usize, buf.len());
}

#[test]
fn parses_tensor_info_and_aligns_data_offset() {
    let buf = Builder::new()
        .kv_u32("answer", 42)
        .tensor("token_embd.weight", &[4096, 32000], GgmlType::Q4_K, 0)
        .tensor("output_norm.weight", &[4096], GgmlType::F32, 1024)
        .build();

    let g = Gguf::from_bytes(&buf).ok().unwrap();
    assert_eq!(g.tensors().len(), 2);

    let emb = g.tensor("token_embd.weight").unwrap();
    assert_eq!(emb.ty, GgmlType::Q4_K);
    assert_eq!(emb.dims, vec![4096, 32000]);
    assert_eq!(emb.n_elements(), 4096 * 32000);
    // 4096*32000 / 256 blocks * 144 bytes.
    assert_eq!(emb.n_bytes(), (4096 * 32000 / 256) * 144);

    let norm = g.tensor("output_norm.weight").unwrap();
    assert_eq!(norm.n_bytes(), 4096 * 4);

    // With tensors present, the data blob is padded to alignment (default 32).
    assert_eq!(g.alignment(), 32);
    assert_eq!(g.data_offset() % 32, 0);
}

#[test]
fn rejects_bad_magic() {
    let err = Gguf::from_bytes(b"NOPExxxxxxxxxxxxxxxxxxxx").err().unwrap();
    assert!(matches!(err, GgufError::BadMagic(_)));
}

#[test]
fn rejects_truncated_file() {
    let mut buf = Builder::new().kv_u32("answer", 42).build();
    buf.truncate(buf.len() - 2); // chop the value
    let err = Gguf::from_bytes(&buf).err().unwrap();
    assert!(matches!(err, GgufError::UnexpectedEof { .. }));
}

#[test]
fn honors_alignment_override() {
    let buf = Builder::new()
        .kv_u32(GGUF_KEY_ALIGNMENT, 64)
        .tensor("t", &[8], GgmlType::F32, 0)
        .build();
    let g = Gguf::from_bytes(&buf).ok().unwrap();
    assert_eq!(g.alignment(), 64);
    assert_eq!(g.data_offset() % 64, 0);
}

fn parse(buf: &[u8]) -> Gguf {
    Gguf::from_bytes(buf).ok().unwrap()
}

fn refusal(buf: &[u8]) -> GgufError {
    Gguf::from_bytes(buf).err().unwrap()
}

fn sample() -> Vec<u8> {
    Builder::new()
        .kv_string("general.name", "sample")
        .kv_u32("count", 7)
        .kv_str_array("words", &["a", "bc"])
        .tensor("first", &[32, 2], GgmlType::Q8_0, 0)
        .tensor("second", &[4], GgmlType::F32, 96)
        .build()
}

#[test]
fn every_scalar_type_is_read() {
    let buf = Builder::new()
        .kv_raw("u8", 0, &[200])
        .kv_raw("i8", 1, &[0xfe])
        .kv_raw("u16", 2, &0xbeef_u16.to_le_bytes())
        .kv_raw("i16", 3, &(-300_i16).to_le_bytes())
        .kv_raw("u32", 4, &0xdead_beef_u32.to_le_bytes())
        .kv_raw("i32", 5, &(-70_000_i32).to_le_bytes())
        .kv_raw("f32", 6, &1.5_f32.to_le_bytes())
        .kv_raw("bool", 7, &[1])
        .kv_raw("u64", 10, &u64::MAX.to_le_bytes())
        .kv_raw("i64", 11, &i64::MIN.to_le_bytes())
        .kv_raw("f64", 12, &(-0.1_f64).to_le_bytes())
        .build();
    let g = parse(&buf);
    let expected = [
        Value::U8(200),
        Value::I8(-2),
        Value::U16(0xbeef),
        Value::I16(-300),
        Value::U32(0xdead_beef),
        Value::I32(-70_000),
        Value::F32(1.5_f32.to_bits()),
        Value::Bool(true),
        Value::U64(u64::MAX),
        Value::I64(i64::MIN),
        Value::F64((-0.1_f64).to_bits()),
    ];
    assert_eq!(g.metadata().len(), expected.len());
    for ((_, value), e) in g.metadata().iter().zip(&expected) {
        assert_eq!(value, e);
    }
    let float = |key: &str| g.get(key).and_then(Value::as_f64).map(f64::from_bits);
    assert_eq!(float("f32"), Some(1.5));
    assert_eq!(float("f64"), Some(-0.1));
    assert_eq!(float("u8"), None);
    assert_eq!(g.get_u64("u8"), Some(200));
    assert_eq!(g.get_u64("bool"), Some(1));
    assert_eq!(g.get_u64("u64"), Some(u64::MAX));
    assert_eq!(g.get_u64("i8"), None);
    assert_eq!(g.get_u64("i64"), None);
    assert_eq!(g.get_u64("f32"), None);
    assert_eq!(g.get_u64("missing"), None);
    assert_eq!(g.get_str("u8"), None);
}

#[test]
fn every_array_type_is_read() {
    fn array(element: u32, count: u64, bytes: &[u8]) -> Vec<u8> {
        let mut out = element.to_le_bytes().to_vec();
        out.extend_from_slice(&count.to_le_bytes());
        out.extend_from_slice(bytes);
        out
    }
    let buf = Builder::new()
        .kv_raw("u8", 9, &array(0, 2, &[1, 2]))
        .kv_raw("i8", 9, &array(1, 1, &[0xff]))
        .kv_raw("u16", 9, &array(2, 1, &[1, 2]))
        .kv_raw("i16", 9, &array(3, 1, &[0xff, 0xff]))
        .kv_raw("u32", 9, &array(4, 1, &[1, 0, 0, 0]))
        .kv_raw("i32", 9, &array(5, 1, &[0xff; 4]))
        .kv_raw("f32", 9, &array(6, 1, &0.5_f32.to_le_bytes()))
        .kv_raw("bool", 9, &array(7, 3, &[0, 1, 2]))
        .kv_raw("u64", 9, &array(10, 0, &[]))
        .kv_raw("i64", 9, &array(11, 1, &[0xff; 8]))
        .kv_raw("f64", 9, &array(12, 1, &0.5_f64.to_le_bytes()))
        .build();
    let g = parse(&buf);
    let expected = [
        Array::U8(vec![1, 2]),
        Array::I8(vec![-1]),
        Array::U16(vec![0x0201]),
        Array::I16(vec![-1]),
        Array::U32(vec![1]),
        Array::I32(vec![-1]),
        Array::F32(vec![0.5_f32.to_bits()]),
        Array::Bool(vec![false, true, true]),
        Array::U64(vec![]),
        Array::I64(vec![-1]),
        Array::F64(vec![0.5_f64.to_bits()]),
    ];
    for ((_, value), e) in g.metadata().iter().zip(&expected) {
        let a = value.as_array().unwrap();
        assert_eq!(a, e);
        assert_eq!(a.is_empty(), a.len() == 0);
    }
    assert_eq!(g.get("bool").and_then(Value::as_array).unwrap().len(), 3);
    assert!(g.get("u64").and_then(Value::as_array).unwrap().is_empty());
}

#[test]
fn floats_in_values_compare_as_numbers() {
    let nan = f32::NAN.to_bits();
    assert_ne!(Value::F32(nan), Value::F32(nan));
    assert_eq!(Value::F32(0), Value::F32(0x8000_0000));
    assert_ne!(Value::F32(0), Value::U32(0));
    assert_eq!(Value::F64(0), Value::F64(1 << 63));
    assert_ne!(Array::F32(vec![0, nan]), Array::F32(vec![0, nan]));
    assert_eq!(Array::F64(vec![0]), Array::F64(vec![1 << 63]));
    assert_ne!(Array::U8(vec![1]), Array::U8(vec![1, 1]));
    assert_ne!(
        Array::String(vec![String::from("a")]),
        Array::String(vec![String::from("b")])
    );
}

#[test]
fn the_last_of_several_entries_counts() {
    let buf = Builder::new()
        .kv_u32("k", 1)
        .kv_u32("other", 2)
        .kv_u32("k", 3)
        .tensor("t", &[1], GgmlType::F32, 0)
        .tensor("t", &[2], GgmlType::F32, 32)
        .build();
    let g = parse(&buf);
    assert_eq!(g.get_u64("k"), Some(3));
    assert_eq!(g.metadata().len(), 3);
    assert_eq!(g.tensor("t").unwrap().offset, 32);
    assert_eq!(g.tensors().len(), 2);
    assert!(g.tensor("u").is_none());
    assert!(g.get("t").is_none());
}

#[test]
fn a_zero_or_odd_alignment_entry_is_passed_over() {
    let zero = Builder::new().kv_u32(GGUF_KEY_ALIGNMENT, 0).build();
    assert_eq!(parse(&zero).alignment(), GGUF_DEFAULT_ALIGNMENT);
    let text = Builder::new().kv_string(GGUF_KEY_ALIGNMENT, "64").build();
    assert_eq!(parse(&text).alignment(), GGUF_DEFAULT_ALIGNMENT);
}

#[test]
fn data_starts_at_the_first_aligned_position() {
    for align in [1_u32, 7, 32, 4096] {
        let buf = Builder::new()
            .kv_u32(GGUF_KEY_ALIGNMENT, align)
            .tensor("t", &[8], GgmlType::F32, 0)
            .build();
        let g = parse(&buf);
        let end = buf.len() as u64;
        assert_eq!(g.data_offset() % align as u64, 0);
        assert!(end <= g.data_offset() && g.data_offset() < end + align as u64);
    }
}

#[test]
fn supported_versions_share_one_layout() {
    let mut buf = sample();
    let newest = parse(&buf);
    buf[4..8].copy_from_slice(&GGUF_VERSION_MIN.to_le_bytes());
    let oldest = parse(&buf);
    assert_eq!(newest.version(), GGUF_VERSION);
    assert_eq!(oldest.version(), GGUF_VERSION_MIN);
    assert_eq!(oldest.metadata(), newest.metadata());
    assert_eq!(oldest.tensors(), newest.tensors());
    assert_eq!(oldest.data_offset(), newest.data_offset());
}

#[test]
fn unsupported_versions_are_refused() {
    for version in [0_u32, 1, 4, u32::MAX] {
        let mut buf = sample();
        buf[4..8].copy_from_slice(&version.to_le_bytes());
        assert_eq!(refusal(&buf), GgufError::UnsupportedVersion(version));
    }
    assert_eq!(
        GgufError::UnsupportedVersion(1).message(),
        "unsupported GGUF version: 1"
    );
}

#[test]
fn bad_magic_is_shown() {
    let e = refusal(b"NOPExxxxxxxxxxxxxxxxxxxx");
    assert_eq!(e, GgufError::BadMagic(*b"NOPE"));
    assert_eq!(
        e.message(),
        "bad GGUF magic: [78, 79, 80, 69] (expected \"GGUF\")"
    );
}

#[test]
fn a_header_cut_short_runs_past_the_end() {
    let buf = sample();
    for n in 0..buf.len() {
        match refusal(&buf[..n]) {
            GgufError::UnexpectedEof { needed, available } => {
                assert!(available < needed, "cut at {n}")
            }
            other => panic!("cut at {n}: {}", other.message()),
        }
    }
}

#[test]
fn end_of_file_counts_bytes() {
    let e = refusal(b"GG");
    assert_eq!(
        e,
        GgufError::UnexpectedEof {
            needed: 4,
            available: 2
        }
    );
    assert_eq!(
        e.message(),
        "unexpected end of file: needed 4 bytes, 2 available"
    );
}

#[test]
fn bytes_behind_the_header_do_not_matter() {
    let mut buf = sample();
    let g = parse(&buf);
    buf.extend_from_slice(&[0xab; 500]);
    let h = parse(&buf);
    assert_eq!(g.metadata(), h.metadata());
    assert_eq!(g.tensors(), h.tensors());
    assert_eq!(g.data_offset(), h.data_offset());
}

#[test]
fn what_was_written_is_read_back() {
    let g = parse(&sample());
    let words = Array::String(vec![String::from("a"), String::from("bc")]);
    assert_eq!(
        g.metadata(),
        &[
            (
                String::from("general.name"),
                Value::String(String::from("sample"))
            ),
            (String::from("count"), Value::U32(7)),
            (String::from("words"), Value::Array(words)),
        ]
    );
    assert_eq!(
        g.tensors(),
        &[
            TensorInfo {
                name: String::from("first"),
                dims: vec![32, 2],
                ty: GgmlType::Q8_0,
                offset: 0
            },
            TensorInfo {
                name: String::from("second"),
                dims: vec![4],
                ty: GgmlType::F32,
                offset: 96
            },
        ]
    );
}

#[test]
fn a_clone_reads_like_the_file() {
    let g = parse(&sample());
    let h = g.clone();
    assert_eq!(h.version(), g.version());
    assert_eq!(h.alignment(), g.alignment());
    assert_eq!(h.data_offset(), g.data_offset());
    assert_eq!(h.metadata(), g.metadata());
    assert_eq!(h.tensors(), g.tensors());
    assert_eq!(h.get_str("general.name"), Some("sample"));
    assert_eq!(h.tensor("second").unwrap().offset, 96);
}

#[test]
fn invalid_text_is_refused() {
    let mut bytes = 2_u64.to_le_bytes().to_vec();
    bytes.extend_from_slice(&[0xc3, 0x28]);
    let buf = Builder::new().kv_raw("k", 8, &bytes).build();
    assert_eq!(refusal(&buf), GgufError::InvalidUtf8);
    assert_eq!(
        GgufError::InvalidUtf8.message(),
        "string was not valid UTF-8"
    );
}

#[test]
fn text_beyond_ascii_is_read() {
    let g = parse(&Builder::new().kv_string("k", "h\u{e9}llo \u{1f600}").build());
    assert_eq!(g.get_str("k"), Some("h\u{e9}llo \u{1f600}"));
}

#[test]
fn unknown_value_types_are_refused() {
    let buf = Builder::new().kv_raw("k", 13, &[0; 16]).build();
    assert_eq!(refusal(&buf), GgufError::UnknownValueType(13));
    assert_eq!(
        GgufError::UnknownValueType(13).message(),
        "unknown gguf value type: 13"
    );
}

#[test]
fn nested_arrays_are_refused() {
    let mut bytes = 9_u32.to_le_bytes().to_vec();
    bytes.extend_from_slice(&1_u64.to_le_bytes());
    bytes.extend_from_slice(&[0; 16]);
    let buf = Builder::new().kv_raw("k", 9, &bytes).build();
    assert_eq!(refusal(&buf), GgufError::NestedArray);
    assert_eq!(
        GgufError::NestedArray.message(),
        "nested arrays are not permitted in GGUF"
    );
}

#[test]
fn too_many_dimensions_are_refused() {
    let buf = Builder::new()
        .tensor("t", &[1, 1, 1, 1, 1], GgmlType::F32, 0)
        .build();
    assert_eq!(refusal(&buf), GgufError::TooManyDims(5));
    assert_eq!(
        GgufError::TooManyDims(5).message(),
        "tensor has too many dimensions: 5"
    );
}

#[test]
fn unknown_tensor_types_are_refused() {
    let mut buf = Builder::new()
        .tensor("t", &[8], GgmlType::F32, 0)
        .build();
    let at = buf.len() - 12;
    buf[at..at + 4].copy_from_slice(&(-4_i32).to_le_bytes());
    assert_eq!(refusal(&buf), GgufError::UnknownTensorType(-4));
    assert_eq!(
        GgufError::UnknownTensorType(-4).message(),
        "unknown/removed ggml tensor type: -4"
    );
}

#[test]
fn negative_lengths_are_refused() {
    let mut buf = sample();
    buf[8..16].copy_from_slice(&(-1_i64).to_le_bytes());
    assert_eq!(refusal(&buf), GgufError::NegativeLength(-1));
    let buf = Builder::new()
        .tensor("t", &[-5], GgmlType::F32, 0)
        .build();
    assert_eq!(refusal(&buf), GgufError::NegativeLength(-5));
    assert_eq!(
        GgufError::NegativeLength(i64::MIN).message(),
        "negative length/count field: -9223372036854775808"
    );
}

#[test]
fn a_count_beyond_the_file_runs_past_the_end() {
    for at in [8, 16] {
        let mut buf = Builder::new().build();
        buf[at..at + 8].copy_from_slice(&i64::MAX.to_le_bytes());
        assert_eq!(
            refusal(&buf),
            GgufError::UnexpectedEof {
                needed: 8,
                available: 0
            }
        );
    }
}

#[test]
fn tensors_without_dimensions_are_refused() {
    let buf = Builder::new().tensor("t", &[], GgmlType::F32, 0).build();
    assert_eq!(refusal(&buf), GgufError::NoDims);
    assert_eq!(GgufError::NoDims.message(), "tensor has no dimensions");
}

#[test]
fn tensors_have_one_to_four_extents() {
    for n in 1..=4 {
        let dims = vec![i64::MAX; n];
        let buf = Builder::new().tensor("t", &dims, GgmlType::F32, 0).build();
        let expected = vec![i64::MAX as u64; n];
        assert_eq!(parse(&buf).tensor("t").unwrap().dims, expected);
    }
}

#[test]
fn a_record_without_extents_takes_no_bytes() {
    let t = TensorInfo {
        name: String::from("t"),
        dims: vec![],
        ty: GgmlType::F32,
        offset: 0,
    };
    assert_eq!(t.n_bytes(), 0);
    assert_eq!(t.n_elements(), 1);
}

#[test]
fn the_other_version_is_refused_alike() {
    let mut buf = sample();
    let last = buf.len() - 1;
    for n in [20, 40, last] {
        let newest = refusal(&buf[..n]);
        buf[4..8].copy_from_slice(&GGUF_VERSION_MIN.to_le_bytes());
        assert_eq!(refusal(&buf[..n]), newest);
        buf[4..8].copy_from_slice(&GGUF_VERSION.to_le_bytes());
    }
}

#[test]
fn a_text_longer_than_the_file_counts_its_bytes() {
    let mut bytes = ((1_u64 << 32) + 1).to_le_bytes().to_vec();
    bytes.extend_from_slice(b"0123456789");
    let buf = Builder::new().kv_raw("k", 8, &bytes).build();
    let needed = usize::try_from((1_u64 << 32) + 1).unwrap_or(usize::MAX);
    assert_eq!(
        refusal(&buf),
        GgufError::UnexpectedEof {
            needed,
            available: 10
        }
    );
}
