use voxtral_weights::dequantize::dequantize_affine_tensor;
use voxtral_weights::error::VoxtralError;
use voxtral_weights::quantization::QuantizationConfig;
use voxtral_weights::tensor::{Dtype, Tensor, TensorValues, TensorView};

fn affine(q: u32, scale: u32, bias: u32) -> u32 {
    (q as f32 * f32::from_bits(scale) + f32::from_bits(bias)).to_bits()
}

fn words(values: &[u32]) -> Vec<u8> {
    values.iter().flat_map(|v| v.to_le_bytes()).collect()
}

fn singles(values: &[f32]) -> Vec<u8> {
    values.iter().flat_map(|v| v.to_le_bytes()).collect()
}

fn bf16_bits(values: &[f32]) -> Vec<u16> {
    values.iter().map(|&v| half::bf16::from_f32(v).to_bits()).collect()
}

const FOUR: QuantizationConfig = QuantizationConfig { bits: 4, group_size: 4 };

fn failure(
    weight: TensorView<'_>,
    scales: TensorView<'_>,
    biases: Option<TensorView<'_>>,
    quantization: QuantizationConfig,
) -> String {
    match dequantize_affine_tensor(&weight, &scales, biases.as_ref(), &quantization, &affine) {
        Err(VoxtralError::ModelLoad(message)) => message,
        other => panic!("{other:?}"),
    }
}

#[test]
fn reconstructs_a_weight_with_scales_and_biases() {
    let packed = words(&[0x8765_4321, 0x1234_5678]);
    let scales = singles(&[1.0, 2.0, 0.5, 1.5]);
    let biases = singles(&[0.0, 10.0, -1.0, 1.0]);
    let weight = TensorView { dtype: Dtype::U32, shape: vec![2, 1], data: &packed };
    let scales = TensorView { dtype: Dtype::F32, shape: vec![2, 2], data: &scales };
    let biases = TensorView { dtype: Dtype::F32, shape: vec![2, 2], data: &biases };
    let expected = bf16_bits(&[
        1.0, 2.0, 3.0, 4.0, 20.0, 22.0, 24.0, 26.0, 3.0, 2.5, 2.0, 1.5, 7.0, 5.5, 4.0, 2.5,
    ]);
    assert_eq!(
        dequantize_affine_tensor(&weight, &scales, Some(&biases), &FOUR, &affine),
        Ok(Tensor { values: TensorValues::BF16(expected), shape: vec![2, 8] })
    );
}

#[test]
fn missing_biases_are_zero() {
    let packed = words(&[0x8765_4321]);
    let scales: Vec<u8> = bf16_bits(&[0.5, -2.0]).iter().flat_map(|b| b.to_le_bytes()).collect();
    let weight = TensorView { dtype: Dtype::U32, shape: vec![1, 1], data: &packed };
    let scales = TensorView { dtype: Dtype::BF16, shape: vec![1, 2], data: &scales };
    let expected = bf16_bits(&[0.5, 1.0, 1.5, 2.0, -10.0, -12.0, -14.0, -16.0]);
    assert_eq!(
        dequantize_affine_tensor(&weight, &scales, None, &FOUR, &affine),
        Ok(Tensor { values: TensorValues::BF16(expected), shape: vec![1, 8] })
    );
}

#[test]
fn results_are_rounded_to_bf16() {
    let packed = words(&[0x0000_000F]);
    let scales = singles(&[0.1]);
    let biases = singles(&[0.3]);
    let weight = TensorView { dtype: Dtype::U32, shape: vec![1, 1], data: &packed };
    let scales = TensorView { dtype: Dtype::F32, shape: vec![1, 1], data: &scales };
    let biases = TensorView { dtype: Dtype::F32, shape: vec![1, 1], data: &biases };
    let quantization = QuantizationConfig { bits: 4, group_size: 2 };
    let expected = bf16_bits(&[15.0f32 * 0.1 + 0.3, 0.3]);
    assert_eq!(expected, vec![0x3FE6, 0x3E9A]);
    assert_eq!(
        dequantize_affine_tensor(&weight, &scales, Some(&biases), &quantization, &affine),
        Ok(Tensor { values: TensorValues::BF16(expected), shape: vec![1, 2] })
    );
}

#[test]
fn a_last_word_may_be_partly_used() {
    let packed = words(&[1 | 2 << 6 | 3 << 12 | 4 << 18 | 5 << 24, 6]);
    let scales = singles(&[0.5, 2.0]);
    let biases = singles(&[1.0, -3.0]);
    let weight = TensorView { dtype: Dtype::U32, shape: vec![1, 2], data: &packed };
    let scales = TensorView { dtype: Dtype::F32, shape: vec![1, 2], data: &scales };
    let biases = TensorView { dtype: Dtype::F32, shape: vec![1, 2], data: &biases };
    let quantization = QuantizationConfig { bits: 6, group_size: 3 };
    let expected = bf16_bits(&[1.5, 2.0, 2.5, 5.0, 7.0, 9.0]);
    assert_eq!(
        dequantize_affine_tensor(&weight, &scales, Some(&biases), &quantization, &affine),
        Ok(Tensor { values: TensorValues::BF16(expected), shape: vec![1, 6] })
    );
}

#[test]
fn the_same_parts_give_the_same_weight() {
    let packed = words(&[0xDEAD_BEEF]);
    let scales = singles(&[0.1, 0.7]);
    let weight = TensorView { dtype: Dtype::U32, shape: vec![1, 1], data: &packed };
    let scales = TensorView { dtype: Dtype::F32, shape: vec![1, 2], data: &scales };
    let first = dequantize_affine_tensor(&weight, &scales, None, &FOUR, &affine);
    let second = dequantize_affine_tensor(&weight, &scales, None, &FOUR, &affine);
    assert!(first.is_ok());
    assert_eq!(first, second);
}

#[test]
fn weight_and_scales_must_be_matrices() {
    let scales = || TensorView { dtype: Dtype::F32, shape: vec![1, 2], data: &[0; 8] };
    let weight = TensorView { dtype: Dtype::U32, shape: vec![1, 1, 1], data: &[0; 4] };
    assert_eq!(
        failure(weight, scales(), None, FOUR),
        "Quantized weight must be rank-2, got [1, 1, 1]"
    );
    let weight = TensorView { dtype: Dtype::U32, shape: vec![1, 1], data: &[0; 4] };
    let flat = TensorView { dtype: Dtype::F32, shape: vec![2], data: &[0; 8] };
    assert_eq!(failure(weight, flat, None, FOUR), "Quantization scales must be rank-2, got [2]");
}

#[test]
fn the_rows_must_have_the_expected_length() {
    let weight = TensorView { dtype: Dtype::U32, shape: vec![1, 2], data: &[0; 8] };
    let scales = TensorView { dtype: Dtype::F32, shape: vec![1, 2], data: &[0; 8] };
    assert_eq!(
        failure(weight, scales, None, FOUR),
        "Packed weight shape [1, 2] is incompatible with bits=4 and group_size=4 (expected packed input dim 1)"
    );
    let weight = TensorView { dtype: Dtype::U32, shape: vec![1, 1], data: &[0; 4] };
    let scales = TensorView { dtype: Dtype::F32, shape: vec![1, 2], data: &[0; 8] };
    let six = QuantizationConfig { bits: 6, group_size: 3 };
    assert_eq!(
        failure(weight, scales, None, six),
        "Packed weight shape [1, 1] is incompatible with bits=6 and group_size=3 (expected packed input dim 2)"
    );
}

#[test]
fn the_parts_must_have_the_right_types() {
    let scales = || TensorView { dtype: Dtype::F32, shape: vec![1, 2], data: &[0; 8] };
    let weight = TensorView { dtype: Dtype::I32, shape: vec![1, 1], data: &[0; 4] };
    assert_eq!(
        failure(weight, scales(), None, FOUR),
        "Found signed I32 storage for a packed quantized tensor. Packed weights must use unsigned U32 to prevent sign extension from corrupting unpacked bit-level values"
    );
    let weight = TensorView { dtype: Dtype::F32, shape: vec![1, 1], data: &[0; 4] };
    assert_eq!(
        failure(weight, scales(), None, FOUR),
        "Unsupported packed quantized tensor dtype F32"
    );
    let weight = || TensorView { dtype: Dtype::U32, shape: vec![1, 1], data: &[0; 4] };
    let whole = TensorView { dtype: Dtype::I64, shape: vec![1, 2], data: &[0; 16] };
    assert_eq!(failure(weight(), whole, None, FOUR), "Unsupported floating tensor dtype I64");
    let whole = TensorView { dtype: Dtype::I32, shape: vec![1, 2], data: &[0; 8] };
    assert_eq!(
        failure(weight(), scales(), Some(whole), FOUR),
        "Unsupported floating tensor dtype I32"
    );
}

#[test]
fn the_shapes_must_match() {
    let weight = || TensorView { dtype: Dtype::U32, shape: vec![2, 1], data: &[0; 8] };
    let scales = TensorView { dtype: Dtype::F32, shape: vec![1, 2], data: &[0; 8] };
    assert_eq!(
        failure(weight(), scales, None, FOUR),
        "Quantization scales shape [1, 2] does not match weight output dim 2"
    );
    let scales = TensorView { dtype: Dtype::F32, shape: vec![2, 2], data: &[0; 16] };
    let biases = TensorView { dtype: Dtype::F32, shape: vec![4, 1], data: &[0; 16] };
    assert_eq!(
        failure(weight(), scales, Some(biases), FOUR),
        "Quantization biases shape [4, 1] does not match scales shape [2, 2]"
    );
}

#[test]
fn other_widths_are_rejected_last() {
    let weight = TensorView { dtype: Dtype::U32, shape: vec![1, 1], data: &[0; 4] };
    let scales = TensorView { dtype: Dtype::F32, shape: vec![1, 1], data: &[0; 4] };
    let eight = QuantizationConfig { bits: 8, group_size: 4 };
    assert_eq!(
        failure(weight, scales, None, eight),
        "Unsupported quantization bits 8. Only 4-bit and 6-bit checkpoints are supported"
    );
}

#[test]
fn only_two_widths_are_supported() {
    let supported: Vec<usize> =
        (0..64).filter(|&bits| QuantizationConfig::supports_bits(bits)).collect();
    assert_eq!(supported, vec![4, 6]);
}
