use voxtral_weights::error::VoxtralError;
use voxtral_weights::packing::dequantize_affine_packed_values;

fn pack_row(values: &[u32], bits: usize) -> Vec<u32> {
    let pack_factor = 32 / bits;
    let packed_len = values.len().div_ceil(pack_factor);
    let mut packed = vec![0u32; packed_len];
    for (idx, &value) in values.iter().enumerate() {
        // Least-significant bits first, packed left-to-right within each u32.
        let word_idx = idx / pack_factor;
        let shift = ((idx % pack_factor) * bits) as u32;
        packed[word_idx] |= value << shift;
    }
    packed
}

fn affine(q: u32, scale: f32, bias: f32) -> f32 {
    q as f32 * scale + bias
}

#[test]
fn dequantizes_4bit_affine_weights() {
    let row0 = pack_row(&[1, 2, 3, 4, 5, 6, 7, 8], 4);
    let row1 = pack_row(&[8, 7, 6, 5, 4, 3, 2, 1], 4);
    let packed = [row0, row1].concat();
    let scales = vec![1.0, 2.0, 0.5, 1.5];
    let biases = vec![0.0, 10.0, -1.0, 1.0];

    let out =
        dequantize_affine_packed_values(&packed, 2, 1, 8, &scales, &biases, 2, 4, 4, &affine)
            .unwrap();

    assert_eq!(
        out,
        vec![
            1.0, 2.0, 3.0, 4.0, 20.0, 22.0, 24.0, 26.0, 3.0, 2.5, 2.0, 1.5, 7.0, 5.5, 4.0, 2.5
        ]
    );
}

#[test]
fn dequantizes_6bit_affine_weights() {
    let packed = pack_row(&[1, 2, 3, 4, 5, 6], 6);
    let scales = vec![0.5, 2.0];
    let biases = vec![1.0, -3.0];

    let out =
        dequantize_affine_packed_values(&packed, 1, 2, 6, &scales, &biases, 2, 6, 3, &affine)
            .unwrap();

    assert_eq!(out, vec![1.5, 2.0, 2.5, 5.0, 7.0, 9.0]);
}

#[test]
fn unpacking_undoes_packing() {
    let four: Vec<u32> = (0..24).map(|i| (i * 7) % 16).collect();
    let six: Vec<u32> = (0..23).map(|i| (i * 29 + 63) % 64).collect();
    for (values, bits) in [(four, 4usize), (six, 6usize)] {
        let packed = pack_row(&values, bits);
        let n = values.len();
        let out = dequantize_affine_packed_values(
            &packed,
            1,
            packed.len(),
            n,
            &[()],
            &[()],
            1,
            bits,
            n,
            &|q: u32, _: (), _: ()| q,
        )
        .unwrap();
        assert_eq!(out, values);
    }
}

#[test]
fn every_element_gets_its_own_group() {
    let packed = [pack_row(&[0; 6], 6), pack_row(&[63; 6], 6)].concat();
    let out = dequantize_affine_packed_values(
        &packed,
        2,
        2,
        6,
        &[1u32, 2, 3, 4, 5, 6],
        &[10u32, 20, 30, 40, 50, 60],
        3,
        6,
        2,
        &|q: u32, s: u32, b: u32| (q, s, b),
    )
    .unwrap();
    let groups: Vec<(u32, u32)> = out.iter().map(|&(_, s, b)| (s, b)).collect();
    assert_eq!(
        groups,
        vec![
            (1, 10), (1, 10), (2, 20), (2, 20), (3, 30), (3, 30), (4, 40), (4, 40), (5, 50),
            (5, 50), (6, 60), (6, 60)
        ]
    );
    assert!(out[..6].iter().all(|e| e.0 == 0));
    assert!(out[6..].iter().all(|e| e.0 == 63));
}

#[test]
fn a_matrix_without_elements_is_empty() {
    let none: [f32; 0] = [];
    let out =
        dequantize_affine_packed_values(&[], 0, 1, 8, &none, &none, 2, 4, 4, &affine).unwrap();
    assert_eq!(out, Vec::<f32>::new());
    let out =
        dequantize_affine_packed_values(&[], 3, 0, 0, &none, &none, 0, 4, 0, &affine).unwrap();
    assert_eq!(out, Vec::<f32>::new());
}

#[test]
fn rejects_other_widths() {
    for bits in [0usize, 2, 3, 5, 8, 32, 40] {
        let out =
            dequantize_affine_packed_values(&[0], 1, 1, 1, &[1.0f32], &[0.0], 1, bits, 1, &affine);
        assert_eq!(
            out,
            Err(VoxtralError::ModelLoad(format!(
                "Unsupported quantization bits {bits}. Only 4-bit and 6-bit checkpoints are supported"
            )))
        );
    }
}

#[test]
fn rejects_missing_scales_or_biases() {
    let error = Err(VoxtralError::ModelLoad(
        "Invalid quantization scales/biases length".to_string(),
    ));
    let few = [1.0f32];
    let enough = [1.0f32, 1.0];
    let out = dequantize_affine_packed_values(&[0], 1, 1, 8, &few, &enough, 2, 4, 4, &affine);
    assert_eq!(out, error);
    let out = dequantize_affine_packed_values(&[0], 1, 1, 8, &enough, &few, 2, 4, 4, &affine);
    assert_eq!(out, error);
}
