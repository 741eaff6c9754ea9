use half::bf16;
use voxtral_weights::decode::{
    decode_bf16, decode_f16, decode_f32, decode_i32, decode_i64, decode_tensor_as_f32,
    decode_u16_like, decode_u32, tensor_from_view,
};
use voxtral_weights::error::VoxtralError;
use voxtral_weights::tensor::{Dtype, Tensor, TensorValues, TensorView};

fn model_load<T>(message: &str) -> Result<T, VoxtralError> {
    Err(VoxtralError::ModelLoad(message.to_string()))
}

#[test]
fn words_are_little_endian() {
    assert_eq!(decode_bf16(&[0x80, 0x3F, 0x01, 0x02]), Ok(vec![0x3F80, 0x0201]));
    assert_eq!(decode_f16(&[0x00, 0x3C]), Ok(vec![0x3C00]));
    assert_eq!(decode_f32(&1.5f32.to_le_bytes()), Ok(vec![1.5f32.to_bits()]));
    assert_eq!(decode_u32(&[1, 2, 3, 4], &Dtype::U32), Ok(vec![0x0403_0201]));
    assert_eq!(decode_u32(&[255; 4], &Dtype::U32), Ok(vec![u32::MAX]));
}

#[test]
fn integers_are_read_back() {
    let small = [0i32, 1, -1, i32::MIN, i32::MAX, -123_456_789];
    let bytes: Vec<u8> = small.iter().flat_map(|v| v.to_le_bytes()).collect();
    assert_eq!(decode_i32(&bytes), Ok(small.to_vec()));

    let large = [0i64, 1, -1, i64::MIN, i64::MAX, -1_234_567_890_123_456_789];
    let bytes: Vec<u8> = large.iter().flat_map(|v| v.to_le_bytes()).collect();
    assert_eq!(decode_i64(&bytes), Ok(large.to_vec()));
}

#[test]
fn words_are_read_back() {
    let words = [0u16, 1, 0xFF, 0x100, 0xABCD, u16::MAX];
    let bytes: Vec<u8> = words.iter().flat_map(|v| v.to_le_bytes()).collect();
    assert_eq!(decode_bf16(&bytes), Ok(words.to_vec()));

    let words = [0u32, 0xFF, 0x1234_5678, u32::MAX];
    let bytes: Vec<u8> = words.iter().flat_map(|v| v.to_le_bytes()).collect();
    assert_eq!(decode_f32(&bytes), Ok(words.to_vec()));
}

#[test]
fn sixteen_bit_words_go_through_the_map() {
    assert_eq!(
        decode_u16_like(&[0x34, 0x12, 0x00, 0x01], |w: u16| w as u64 + 1),
        Ok(vec![0x1235, 0x101])
    );
    assert_eq!(decode_u16_like(&[], |w: u16| w), Ok(vec![]));
}

#[test]
fn rejects_incomplete_elements() {
    let two = "Tensor byte length is not aligned to 2 bytes";
    let four = "Tensor byte length is not aligned to 4 bytes";
    let eight = "Tensor byte length is not aligned to 8 bytes";
    assert_eq!(decode_u16_like(&[1], |w: u16| w), model_load(two));
    assert_eq!(decode_bf16(&[1, 2, 3]), model_load(two));
    assert_eq!(decode_f16(&[1, 2, 3]), model_load(two));
    assert_eq!(decode_f32(&[1, 2, 3]), model_load(four));
    assert_eq!(decode_i32(&[1, 2, 3, 4, 5, 6]), model_load(four));
    assert_eq!(decode_i64(&[1, 2, 3, 4]), model_load(eight));
    assert_eq!(
        decode_u32(&[1, 2, 3], &Dtype::U32),
        model_load("Quantized tensor byte length is not aligned to 4 bytes")
    );
}

#[test]
fn packed_words_must_be_unsigned() {
    assert_eq!(
        decode_u32(&[1, 2, 3, 4], &Dtype::I32),
        model_load("Found signed I32 storage for a packed quantized tensor. Packed weights must use unsigned U32 to prevent sign extension from corrupting unpacked bit-level values")
    );
    assert_eq!(
        decode_u32(&[1, 2, 3, 4], &Dtype::F32),
        model_load("Unsupported packed quantized tensor dtype F32")
    );
    assert_eq!(
        decode_u32(&[1, 2, 3, 4], &Dtype::Other("U8".to_string())),
        model_load("Unsupported packed quantized tensor dtype U8")
    );
}

#[test]
fn floating_tensors_are_widened() {
    let view = TensorView { dtype: Dtype::F16, shape: vec![2], data: &[0x00, 0x3C, 0x00, 0xC0] };
    assert_eq!(decode_tensor_as_f32(&view), Ok(vec![1.0f32.to_bits(), (-2.0f32).to_bits()]));

    let bytes = 0.75f32.to_le_bytes();
    let view = TensorView { dtype: Dtype::F32, shape: vec![1], data: &bytes };
    assert_eq!(decode_tensor_as_f32(&view), Ok(vec![0.75f32.to_bits()]));

    let bytes: Vec<u8> = (0..=u16::MAX).flat_map(|b| b.to_le_bytes()).collect();
    let view = TensorView { dtype: Dtype::BF16, shape: vec![65536], data: &bytes };
    let expected: Vec<u32> =
        (0..=u16::MAX).map(|b| if bf16::from_bits(b).is_nan() { b | 0x40 } else { b } as u32)
            .map(|b| b << 16)
            .collect();
    assert_eq!(decode_tensor_as_f32(&view), Ok(expected));
}

#[test]
fn scales_must_be_floating_point() {
    let view = TensorView { dtype: Dtype::I32, shape: vec![1], data: &[0; 4] };
    assert_eq!(
        decode_tensor_as_f32(&view),
        model_load("Unsupported floating tensor dtype I32")
    );
    let view = TensorView { dtype: Dtype::F32, shape: vec![1], data: &[0; 3] };
    assert_eq!(
        decode_tensor_as_f32(&view),
        model_load("Tensor byte length is not aligned to 4 bytes")
    );
    let view = TensorView { dtype: Dtype::BF16, shape: vec![1], data: &[0; 3] };
    assert_eq!(
        decode_tensor_as_f32(&view),
        model_load("Tensor byte length is not aligned to 2 bytes")
    );
}

#[test]
fn tensors_keep_type_shape_and_elements() {
    let data = [1u8, 0, 2, 0, 3, 0, 4, 0];
    let cases = [
        (Dtype::BF16, vec![2, 2], TensorValues::BF16(vec![1, 2, 3, 4])),
        (Dtype::F16, vec![4], TensorValues::F16(vec![1, 2, 3, 4])),
        (Dtype::F32, vec![2, 1], TensorValues::F32(vec![0x2_0001, 0x4_0003])),
        (Dtype::I32, vec![1, 2], TensorValues::I32(vec![0x2_0001, 0x4_0003])),
        (Dtype::I64, vec![], TensorValues::I64(vec![0x4_0003_0002_0001])),
    ];
    for (dtype, shape, values) in cases {
        let signed: Vec<i64> = shape.iter().map(|&d: &usize| d as i64).collect();
        let view = TensorView { dtype, shape, data: &data };
        assert_eq!(tensor_from_view(&view), Ok(Tensor { values, shape: signed }));
    }
}

#[test]
fn decoded_tensors_have_as_many_elements_as_their_shape() {
    let data = [0u8; 48];
    let view = TensorView { dtype: Dtype::BF16, shape: vec![2, 3, 4], data: &data };
    match tensor_from_view(&view) {
        Ok(Tensor { values: TensorValues::BF16(values), shape }) => {
            assert_eq!(values.len(), 24);
            assert_eq!(shape, vec![2, 3, 4]);
        }
        other => panic!("{other:?}"),
    }
}

#[test]
fn other_types_are_not_loaded() {
    let view = TensorView { dtype: Dtype::U32, shape: vec![2, 1], data: &[0; 8] };
    assert_eq!(
        tensor_from_view(&view),
        model_load("Unsupported tensor dtype U32 for [2, 1]")
    );
    let view = TensorView { dtype: Dtype::Other("BOOL".to_string()), shape: vec![], data: &[0] };
    assert_eq!(tensor_from_view(&view), model_load("Unsupported tensor dtype BOOL for []"));
    let view = TensorView {
        dtype: Dtype::Other("F64".to_string()),
        shape: vec![usize::MAX, 0],
        data: &[],
    };
    assert_eq!(
        tensor_from_view(&view),
        model_load("Unsupported tensor dtype F64 for [-1, 0]")
    );
    let view = TensorView { dtype: Dtype::I64, shape: vec![1], data: &[0; 7] };
    assert_eq!(
        tensor_from_view(&view),
        model_load("Tensor byte length is not aligned to 8 bytes")
    );
}
