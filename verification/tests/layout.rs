use ggml::{GgmlType, TensorLayout, GGML_MAX_DIMS};

fn check_packing(ty: GgmlType, ne: [i64; GGML_MAX_DIMS]) {
    let l = TensorLayout::contiguous(ty, ne);
    assert_eq!(l.ty, ty);
    assert_eq!(l.ne, ne);
    assert_eq!(l.nb[0], ty.type_size(), "nb[0] for {ty:?}");
    assert_eq!(
        l.nb[1],
        l.nb[0] * (ne[0] as usize) / (ty.block_size() as usize),
        "nb[1] for {ty:?}",
    );
    for k in 2..GGML_MAX_DIMS {
        assert_eq!(
            l.nb[k],
            l.nb[k - 1] * (ne[k - 1] as usize),
            "nb[{k}] for {ty:?}",
        );
    }
}

#[test]
fn f32_contiguous_packing() {
    let l = TensorLayout::contiguous(GgmlType::F32, [10, 3, 2, 1]);
    assert_eq!(l.nb, [4, 40, 120, 240]);
}

#[test]
fn f16_contiguous_packing() {
    let l = TensorLayout::contiguous(GgmlType::F16, [8, 4, 2, 1]);
    assert_eq!(l.nb, [2, 16, 64, 128]);
}

#[test]
fn q8_0_contiguous_packing() {
    // 64 elements = 2 blocks of 32, each block is 34 bytes.
    let l = TensorLayout::contiguous(GgmlType::Q8_0, [64, 5, 1, 1]);
    assert_eq!(l.nb[0], 34);
    assert_eq!(l.nb[1], 68);
    assert_eq!(l.nb[2], 340);
    assert_eq!(l.nb[3], 340);
}

#[test]
fn q4_0_contiguous_packing() {
    // 32 elements per block, 18 bytes per block.
    let l = TensorLayout::contiguous(GgmlType::Q4_0, [128, 7, 3, 1]);
    assert_eq!(l.nb[0], 18);
    assert_eq!(l.nb[1], 18 * (128 / 32));
    assert_eq!(l.nb[2], l.nb[1] * 7);
    assert_eq!(l.nb[3], l.nb[2] * 3);
}

#[test]
fn q4_k_contiguous_packing() {
    // 256 elements per super-block, 144 bytes per block.
    let l = TensorLayout::contiguous(GgmlType::Q4_K, [512, 4, 2, 1]);
    assert_eq!(l.nb[0], 144);
    assert_eq!(l.nb[1], 144 * (512 / 256));
    assert_eq!(l.nb[2], l.nb[1] * 4);
    assert_eq!(l.nb[3], l.nb[2] * 2);
}

#[test]
fn all_in_scope_types_satisfy_packing_invariant() {
    let cases: &[(GgmlType, [i64; GGML_MAX_DIMS])] = &[
        (GgmlType::F32, [17, 5, 3, 2]),
        (GgmlType::F16, [33, 4, 2, 1]),
        (GgmlType::Q8_0, [256, 8, 2, 1]),
        (GgmlType::Q4_0, [64, 6, 1, 1]),
        (GgmlType::Q4_K, [768, 3, 1, 1]),
    ];
    for &(ty, ne) in cases {
        check_packing(ty, ne);
    }
}

#[test]
fn one_dimensional_packing_collapses_to_block_count_bytes() {
    // A single row of 256 Q4_K elements: nb[1] should equal one super-block's bytes.
    let l = TensorLayout::contiguous(GgmlType::Q4_K, [256, 1, 1, 1]);
    assert_eq!(l.nb[0], GgmlType::Q4_K.type_size());
    assert_eq!(l.nb[1], GgmlType::Q4_K.type_size());
    assert_eq!(l.nb[2], l.nb[1]);
    assert_eq!(l.nb[3], l.nb[2]);
}

#[test]
fn strides_span_the_packed_tensor() {
    let ne = [256_i64, 3, 5, 2];
    for ty in [GgmlType::F32, GgmlType::Q8_0, GgmlType::Q4_K] {
        let l = TensorLayout::contiguous(ty, ne);
        let info = ggml::gguf::TensorInfo {
            name: String::from("t"),
            dims: vec![256, 3, 5, 2],
            ty,
            offset: 0,
        };
        assert_eq!(l.nb[3] * 2, info.n_bytes());
        assert_eq!(
            info.n_bytes() * ty.block_size() as usize,
            info.n_elements() as usize * ty.type_size()
        );
    }
}

#[test]
fn an_empty_row_takes_no_bytes() {
    let l = TensorLayout::contiguous(GgmlType::Q4_0, [0, 7, 3, 1]);
    assert_eq!(l.nb, [18, 0, 0, 0]);
}

#[test]
fn strides_span_tensors_of_fewer_dimensions() {
    for n in 1..=4 {
        let mut ne = [64_i64, 3, 5, 2];
        for extent in &mut ne[n..] {
            *extent = 1;
        }
        let l = TensorLayout::contiguous(GgmlType::Q8_0, ne);
        let info = ggml::gguf::TensorInfo {
            name: String::from("t"),
            dims: ne[..n].iter().map(|&extent| extent as u64).collect(),
            ty: GgmlType::Q8_0,
            offset: 0,
        };
        assert_eq!(l.nb[3] * ne[3] as usize, info.n_bytes());
    }
}
