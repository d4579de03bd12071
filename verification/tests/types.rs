use ggml::GgmlType;

#[test]
fn from_i32_round_trips_for_all_types() {
    for &t in &GgmlType::ALL {
        assert_eq!(
            GgmlType::from_i32(t.to_i32()),
            Some(t),
            "round trip failed for {t:?}"
        );
    }
}

#[test]
fn removed_and_unknown_discriminants_are_none() {
    for v in [4, 5, 31, 32, 33, 36, 37, 38, 42, -1, 1000] {
        assert_eq!(GgmlType::from_i32(v), None, "expected None for {v}");
    }
}

#[test]
fn block_and_type_sizes_match_c_headers() {
    // (type, block_size, type_size)
    let expect = [
        (GgmlType::F32, 1, 4),
        (GgmlType::F16, 1, 2),
        (GgmlType::BF16, 1, 2),
        (GgmlType::Q4_0, 32, 18),
        (GgmlType::Q4_1, 32, 20),
        (GgmlType::Q5_0, 32, 22),
        (GgmlType::Q5_1, 32, 24),
        (GgmlType::Q8_0, 32, 34),
        (GgmlType::Q8_1, 32, 36),
        (GgmlType::Q2_K, 256, 84),
        (GgmlType::Q3_K, 256, 110),
        (GgmlType::Q4_K, 256, 144),
        (GgmlType::Q5_K, 256, 176),
        (GgmlType::Q6_K, 256, 210),
        (GgmlType::Q8_K, 256, 292),
        (GgmlType::IQ4_XS, 256, 136),
        (GgmlType::MXFP4, 32, 17),
        (GgmlType::NVFP4, 64, 36),
        (GgmlType::Q1_0, 128, 18),
    ];
    for (t, blck, sz) in expect {
        assert_eq!(t.block_size(), blck, "block_size mismatch for {t:?}");
        assert_eq!(t.type_size(), sz, "type_size mismatch for {t:?}");
    }
}

#[test]
fn row_size_matches_ggml_formula() {
    assert_eq!(GgmlType::F32.row_size(10), 40);
    assert_eq!(GgmlType::F16.row_size(10), 20);
    // 64 elements of Q8_0 = 2 blocks of 32 * 34 bytes = 68.
    assert_eq!(GgmlType::Q8_0.row_size(64), 68);
    // 256 elements of Q4_K = 1 block * 144 bytes.
    assert_eq!(GgmlType::Q4_K.row_size(256), 144);
}

#[test]
fn quantized_classification() {
    assert!(!GgmlType::F32.is_quantized());
    assert!(!GgmlType::I32.is_quantized());
    assert!(GgmlType::Q4_K.is_quantized());
    assert!(GgmlType::Q8_0.is_quantized());
}

#[test]
fn all_types_ascend_with_distinct_codes_and_names() {
    for (i, a) in GgmlType::ALL.iter().enumerate() {
        for b in &GgmlType::ALL[i + 1..] {
            assert!(a.to_i32() < b.to_i32());
            assert_ne!(a.name(), b.name());
        }
    }
}

#[test]
fn every_code_is_that_of_one_listed_type() {
    for code in -10..100 {
        let listed = GgmlType::ALL.iter().copied().find(|t| t.to_i32() == code);
        assert_eq!(GgmlType::from_i32(code), listed);
    }
}

#[test]
fn names_are_the_canonical_ones() {
    assert_eq!(GgmlType::F32.name(), "f32");
    assert_eq!(GgmlType::Q4_0.name(), "q4_0");
    assert_eq!(GgmlType::Q8_0.name(), "q8_0");
}
