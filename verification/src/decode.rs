//! Decoding of the little-endian bytes of tensors.

use vstd::prelude::*;

use crate::error::VoxtralError;
use crate::float_bits::{widen_bf16, widen_f16};
use crate::tensor::{Dtype, Tensor, TensorValues, TensorView};

verus! {

/// The 16-bit word at a byte position.
pub open spec fn le_u16(data: Seq<u8>, at: int) -> int {
    data[at] + data[at + 1] * 0x100
}

/// The 32-bit word at a byte position.
pub open spec fn le_u32(data: Seq<u8>, at: int) -> int {
    le_u16(data, at) + le_u16(data, at + 2) * 0x1_0000
}

/// The 64-bit word at a byte position.
pub open spec fn le_u64(data: Seq<u8>, at: int) -> int {
    le_u32(data, at) + le_u32(data, at + 4) * 0x1_0000_0000
}

/// The 16-bit words of some bytes.
pub open spec fn u16_words(data: Seq<u8>) -> Seq<u16> {
    Seq::new(data.len() / 2, |i: int| le_u16(data, 2 * i) as u16)
}

/// The 32-bit words of some bytes.
pub open spec fn u32_words(data: Seq<u8>) -> Seq<u32> {
    Seq::new(data.len() / 4, |i: int| le_u32(data, 4 * i) as u32)
}

/// The 32-bit words of some bytes, in two's complement.
pub open spec fn i32_words(data: Seq<u8>) -> Seq<i32> {
    Seq::new(
        data.len() / 4,
        |i: int|
            {
                let w = le_u32(data, 4 * i);
                if w < 0x8000_0000 {
                    w as i32
                } else {
                    (w - 0x1_0000_0000) as i32
                }
            },
    )
}

/// The 64-bit words of some bytes, in two's complement.
pub open spec fn i64_words(data: Seq<u8>) -> Seq<i64> {
    Seq::new(
        data.len() / 8,
        |i: int|
            {
                let w = le_u64(data, 8 * i);
                if w < 0x8000_0000_0000_0000 {
                    w as i64
                } else {
                    (w - 0x1_0000_0000_0000_0000) as i64
                }
            },
    )
}

/// Decodes 16-bit words, each through `map`.
pub fn decode_u16_like<T>(data: &[u8], map: impl Fn(u16) -> T) -> (r: Result<Vec<T>, VoxtralError>)
    requires
        data@.len() % 2 == 0 ==> forall|i: int|
            0 <= i < data@.len() / 2 ==> map.requires((#[trigger] u16_words(data@)[i],)),
    ensures
        match r {
            Ok(v) => {
                &&& data@.len() % 2 == 0
                &&& v@.len() == data@.len() / 2
                &&& forall|i: int|
                    0 <= i < v@.len() ==> map.ensures((u16_words(data@)[i],), #[trigger] v@[i])
            },
            Err(e) => data@.len() % 2 != 0 && e@ == crate::error::alignment_error(2),
        },
{
    if data.len() % 2 != 0 {
        return Err(VoxtralError::alignment(2));
    }
    let len = data.len();
    let n = len / 2;
    let mut v: Vec<T> = Vec::new();
    for i in 0..n
        invariant
            len == data@.len(),
            n == len / 2,
            v@.len() == i,
            forall|j: int|
                0 <= j < n ==> map.requires((#[trigger] u16_words(data@)[j],)),
            forall|j: int| 0 <= j < i ==> map.ensures((u16_words(data@)[j],), #[trigger] v@[j]),
    {
        let word: u16 = data[2 * i] as u16 + data[2 * i + 1] as u16 * 0x100;
        assert(word == u16_words(data@)[i as int]);
        v.push(map(word));
    }
    Ok(v)
}

/// Decodes bfloat16 numbers to their patterns.
pub fn decode_bf16(data: &[u8]) -> (r: Result<Vec<u16>, VoxtralError>)
    ensures
        match r {
            Ok(v) => data@.len() % 2 == 0 && v@ == u16_words(data@),
            Err(e) => data@.len() % 2 != 0 && e@ == crate::error::alignment_error(2),
        },
{
    let pattern = |w: u16| -> (r: u16)
        ensures
            r == w,
        { w };
    decode_u16_like(data, pattern)
}

/// Decodes half-precision numbers to their patterns.
pub fn decode_f16(data: &[u8]) -> (r: Result<Vec<u16>, VoxtralError>)
    ensures
        match r {
            Ok(v) => data@.len() % 2 == 0 && v@ == u16_words(data@),
            Err(e) => data@.len() % 2 != 0 && e@ == crate::error::alignment_error(2),
        },
{
    let pattern = |w: u16| -> (r: u16)
        ensures
            r == w,
        { w };
    decode_u16_like(data, pattern)
}

fn word_at(data: &[u8], at: usize) -> (r: u32)
    requires
        at + 4 <= data@.len(),
    ensures
        r == le_u32(data@, at as int),
{
    data[at] as u32 + data[at + 1] as u32 * 0x100 + data[at + 2] as u32 * 0x1_0000 + data[at
        + 3] as u32 * 0x100_0000
}

pub(crate) fn long_word_at(data: &[u8], at: usize) -> (r: u64)
    requires
        at + 8 <= data@.len(),
    ensures
        r == le_u64(data@, at as int),
{
    assert(at + 8 <= data.len());
    word_at(data, at) as u64 + word_at(data, at + 4) as u64 * 0x1_0000_0000
}

fn words(data: &[u8]) -> (v: Vec<u32>)
    ensures
        v@ == u32_words(data@),
{
    let len = data.len();
    let n = len / 4;
    let mut v: Vec<u32> = Vec::new();
    for i in 0..n
        invariant
            len == data@.len(),
            n == len / 4,
            v@ == u32_words(data@).take(i as int),
    {
        v.push(word_at(data, 4 * i));
    }
    v
}

/// Decodes single-precision numbers to their patterns.
pub fn decode_f32(data: &[u8]) -> (r: Result<Vec<u32>, VoxtralError>)
    ensures
        match r {
            Ok(v) => data@.len() % 4 == 0 && v@ == u32_words(data@),
            Err(e) => data@.len() % 4 != 0 && e@ == crate::error::alignment_error(4),
        },
{
    if data.len() % 4 != 0 {
        return Err(VoxtralError::alignment(4));
    }
    Ok(words(data))
}

/// Decodes 32-bit integers.
pub fn decode_i32(data: &[u8]) -> (r: Result<Vec<i32>, VoxtralError>)
    ensures
        match r {
            Ok(v) => data@.len() % 4 == 0 && v@ == i32_words(data@),
            Err(e) => data@.len() % 4 != 0 && e@ == crate::error::alignment_error(4),
        },
{
    if data.len() % 4 != 0 {
        return Err(VoxtralError::alignment(4));
    }
    let len = data.len();
    let n = len / 4;
    let mut v: Vec<i32> = Vec::new();
    for i in 0..n
        invariant
            len == data@.len(),
            n == len / 4,
            v@ == i32_words(data@).take(i as int),
    {
        let w: u32 = word_at(data, 4 * i);
        proof {
            assert(w >= 0x8000_0000 ==> w as i32 == w - 0x1_0000_0000) by (bit_vector);
        }
        v.push(w as i32);
    }
    Ok(v)
}

/// Decodes 64-bit integers.
pub fn decode_i64(data: &[u8]) -> (r: Result<Vec<i64>, VoxtralError>)
    ensures
        match r {
            Ok(v) => data@.len() % 8 == 0 && v@ == i64_words(data@),
            Err(e) => data@.len() % 8 != 0 && e@ == crate::error::alignment_error(8),
        },
{
    if data.len() % 8 != 0 {
        return Err(VoxtralError::alignment(8));
    }
    let len = data.len();
    let n = len / 8;
    let mut v: Vec<i64> = Vec::new();
    for i in 0..n
        invariant
            len == data@.len(),
            n == len / 8,
            v@ == i64_words(data@).take(i as int),
    {
        let w: u64 = long_word_at(data, 8 * i);
        proof {
            assert(w >= 0x8000_0000_0000_0000 ==> w as i64 == w - 0x1_0000_0000_0000_0000)
                by (bit_vector);
        }
        v.push(w as i64);
    }
    Ok(v)
}

/// The little-endian bytes of a number.
pub open spec fn le_bytes(value: nat, width: nat) -> Seq<u8>
    decreases width,
{
    if width == 0 {
        Seq::empty()
    } else {
        seq![(value % 0x100) as u8] + le_bytes(value / 0x100, (width - 1) as nat)
    }
}

/// The numbers stand in `data` one after the other, each in so many bytes.
pub open spec fn holds(data: Seq<u8>, numbers: Seq<nat>, width: nat) -> bool {
    &&& data.len() == width * numbers.len()
    &&& forall|i: int|
        0 <= i < numbers.len() ==> data.subrange(width * i, width * i + width) == le_bytes(
            #[trigger] numbers[i],
            width,
        )
}

pub(crate) proof fn lemma_le_bytes_len(value: nat, width: nat)
    ensures
        le_bytes(value, width).len() == width,
    decreases width,
{
    if width > 0 {
        lemma_le_bytes_len(value / 0x100, (width - 1) as nat);
    }
}

proof fn lemma_le_bytes_split(value: nat, width: nat)
    ensures
        le_bytes(value, 2 + width) == le_bytes(value, 2) + le_bytes(value / 0x1_0000, width),
{
    reveal_with_fuel(le_bytes, 3);
    assert(le_bytes(value, 2 + width) =~= le_bytes(value, 2) + le_bytes(
        value / 0x1_0000,
        width,
    ));
}

proof fn lemma_le_u16(data: Seq<u8>, at: int, value: nat)
    requires
        0 <= at,
        at + 2 <= data.len(),
        data.subrange(at, at + 2) == le_bytes(value, 2),
    ensures
        le_u16(data, at) == value % 0x1_0000,
{
    reveal_with_fuel(le_bytes, 3);
    let b = data.subrange(at, at + 2);
    assert(b[0] == data[at]);
    assert(b[1] == data[at + 1]);
}

/// What stands in front of the rest of a number's bytes, and the rest.
proof fn lemma_le_front(data: Seq<u8>, at: int, value: nat, width: nat)
    requires
        0 <= at,
        at + 2 + width <= data.len(),
        data.subrange(at, at + 2 + width) == le_bytes(value, 2 + width),
    ensures
        le_u16(data, at) == value % 0x1_0000,
        data.subrange(at + 2, at + 2 + width) == le_bytes(value / 0x1_0000, width),
{
    lemma_le_bytes_split(value, width);
    lemma_le_bytes_len(value, 2);
    lemma_le_bytes_len(value / 0x1_0000, width);
    let b = data.subrange(at, at + 2 + width);
    assert(data.subrange(at, at + 2) =~= b.subrange(0, 2));
    assert(b.subrange(0, 2) =~= le_bytes(value, 2));
    assert(data.subrange(at + 2, at + 2 + width) =~= b.subrange(2, (2 + width) as int));
    lemma_le_u16(data, at, value);
}

proof fn lemma_le_u32(data: Seq<u8>, at: int, value: nat)
    requires
        0 <= at,
        at + 4 <= data.len(),
        data.subrange(at, at + 4) == le_bytes(value, 4),
    ensures
        le_u32(data, at) == value % 0x1_0000_0000,
{
    lemma_le_front(data, at, value, 2);
    lemma_le_u16(data, at + 2, value / 0x1_0000);
}

pub(crate) proof fn lemma_le_u64(data: Seq<u8>, at: int, value: nat)
    requires
        0 <= at,
        at + 8 <= data.len(),
        data.subrange(at, at + 8) == le_bytes(value, 8),
    ensures
        le_u64(data, at) == value % 0x1_0000_0000_0000_0000,
{
    let a = value / 0x1_0000;
    let b = a / 0x1_0000;
    let c = b / 0x1_0000;
    lemma_le_front(data, at, value, 6);
    lemma_le_front(data, at + 2, a, 4);
    lemma_le_front(data, at + 4, b, 2);
    lemma_le_u16(data, at + 6, c);
}

/// Decoding gives back the 16-bit words that were stored.
pub proof fn law_u16_read_back(data: Seq<u8>, values: Seq<u16>)
    requires
        holds(data, values.map_values(|v: u16| v as nat), 2),
    ensures
        data.len() % 2 == 0,
        u16_words(data) == values,
{
    let numbers = values.map_values(|v: u16| v as nat);
    assert forall|i: int| 0 <= i < values.len() implies u16_words(data)[i] == values[i] by {
        assert(numbers[i] == values[i]);
        lemma_le_u16(data, 2 * i, values[i] as nat);
    }
}

/// Decoding gives back the 32-bit words that were stored.
pub proof fn law_u32_read_back(data: Seq<u8>, values: Seq<u32>)
    requires
        holds(data, values.map_values(|v: u32| v as nat), 4),
    ensures
        data.len() % 4 == 0,
        u32_words(data) == values,
{
    let numbers = values.map_values(|v: u32| v as nat);
    assert forall|i: int| 0 <= i < values.len() implies u32_words(data)[i] == values[i] by {
        assert(numbers[i] == values[i]);
        lemma_le_u32(data, 4 * i, values[i] as nat);
    }
}

/// Decoding gives back the 32-bit integers that were stored in two's
/// complement.
pub proof fn law_i32_read_back(data: Seq<u8>, values: Seq<i32>)
    requires
        holds(data, values.map_values(|v: i32| (v as int % 0x1_0000_0000) as nat), 4),
    ensures
        data.len() % 4 == 0,
        i32_words(data) == values,
{
    let numbers = values.map_values(|v: i32| (v as int % 0x1_0000_0000) as nat);
    assert forall|i: int| 0 <= i < values.len() implies i32_words(data)[i] == values[i] by {
        lemma_le_u32(data, 4 * i, numbers[i]);
    }
}

/// Decoding gives back the 64-bit integers that were stored in two's
/// complement.
pub proof fn law_i64_read_back(data: Seq<u8>, values: Seq<i64>)
    requires
        holds(data, values.map_values(|v: i64| (v as int % 0x1_0000_0000_0000_0000) as nat), 8),
    ensures
        data.len() % 8 == 0,
        i64_words(data) == values,
{
    let numbers = values.map_values(|v: i64| (v as int % 0x1_0000_0000_0000_0000) as nat);
    assert forall|i: int| 0 <= i < values.len() implies i64_words(data)[i] == values[i] by {
        lemma_le_u64(data, 8 * i, numbers[i]);
    }
}

/// Why the bytes of a packed tensor cannot be read as words.
pub open spec fn packed_words_error(
    data: Seq<u8>,
    dtype: crate::tensor::DtypeView,
) -> Option<crate::error::ErrorView> {
    match dtype {
        crate::tensor::DtypeView::U32 => if data.len() % 4 != 0 {
            Some(crate::error::packed_alignment_error())
        } else {
            None
        },
        crate::tensor::DtypeView::I32 => Some(crate::error::signed_storage_error()),
        _ => Some(crate::error::packed_dtype_error(dtype.name())),
    }
}

/// Decodes the words of a packed tensor, which must be unsigned.
pub fn decode_u32(data: &[u8], dtype: &Dtype) -> (r: Result<Vec<u32>, VoxtralError>)
    ensures
        match r {
            Ok(v) => packed_words_error(data@, dtype@) is None && v@ == u32_words(data@),
            Err(e) => packed_words_error(data@, dtype@) == Some(e@),
        },
{
    match dtype {
        Dtype::U32 => {
            if data.len() % 4 != 0 {
                return Err(VoxtralError::packed_alignment());
            }
            Ok(words(data))
        },
        Dtype::I32 => Err(VoxtralError::signed_storage()),
        other => Err(VoxtralError::packed_dtype(other.name())),
    }
}

/// Why a tensor cannot be read as single-precision numbers.
pub open spec fn floating_error(info: crate::tensor::TensorInfo) -> Option<
    crate::error::ErrorView,
> {
    match info.dtype {
        crate::tensor::DtypeView::F32 => if info.data.len() % 4 != 0 {
            Some(crate::error::alignment_error(4))
        } else {
            None
        },
        crate::tensor::DtypeView::F16 | crate::tensor::DtypeView::BF16 => if info.data.len() % 2
            != 0 {
            Some(crate::error::alignment_error(2))
        } else {
            None
        },
        _ => Some(crate::error::floating_dtype_error(info.dtype.name())),
    }
}

/// The elements of a floating-point tensor, in single precision.
pub open spec fn floating_values(info: crate::tensor::TensorInfo) -> Seq<u32> {
    match info.dtype {
        crate::tensor::DtypeView::F16 => u16_words(info.data).map_values(
            |h: u16| crate::float_bits::half_widened(h),
        ),
        crate::tensor::DtypeView::BF16 => u16_words(info.data).map_values(
            |b: u16| crate::float_bits::bf16_widened(b),
        ),
        _ => u32_words(info.data),
    }
}

/// Decodes a floating-point tensor of any of the three formats to
/// single-precision patterns.
pub fn decode_tensor_as_f32(view: &TensorView<'_>) -> (r: Result<Vec<u32>, VoxtralError>)
    ensures
        match r {
            Ok(v) => floating_error(view@) is None && v@ == floating_values(view@),
            Err(e) => floating_error(view@) == Some(e@),
        },
{
    match &view.dtype {
        Dtype::F32 => decode_f32(view.data),
        Dtype::F16 => {
            let halves = decode_f16(view.data)?;
            let mut v: Vec<u32> = Vec::new();
            for i in 0..halves.len()
                invariant
                    halves@ == u16_words(view.data@),
                    view@.dtype == crate::tensor::DtypeView::F16,
                    v@ == floating_values(view@).take(i as int),
            {
                v.push(widen_f16(halves[i]));
            }
            Ok(v)
        },
        Dtype::BF16 => {
            let halves = decode_bf16(view.data)?;
            let mut v: Vec<u32> = Vec::new();
            for i in 0..halves.len()
                invariant
                    halves@ == u16_words(view.data@),
                    view@.dtype == crate::tensor::DtypeView::BF16,
                    v@ == floating_values(view@).take(i as int),
            {
                v.push(widen_bf16(halves[i]));
            }
            Ok(v)
        },
        other => Err(VoxtralError::floating_dtype(other.name())),
    }
}

/// A shape as the signed sizes that a tensor holds.
pub open spec fn signed_shape(shape: Seq<usize>) -> Seq<i64> {
    shape.map_values(|d: usize| d as i64)
}

/// Why a tensor cannot be decoded as it stands.
pub open spec fn decode_error(info: crate::tensor::TensorInfo) -> Option<
    crate::error::ErrorView,
> {
    match info.dtype.width() {
        Some(width) if !(info.dtype is U32) => if info.data.len() % width != 0 {
            Some(crate::error::alignment_error(width))
        } else {
            None
        },
        _ => Some(crate::error::dtype_error(info.dtype.name(), signed_shape(info.shape))),
    }
}

/// What a tensor decodes to.
pub open spec fn decoded(info: crate::tensor::TensorInfo) -> crate::tensor::TensorContents {
    crate::tensor::TensorContents {
        values: match info.dtype {
            crate::tensor::DtypeView::BF16 => crate::tensor::ValuesView::BF16(
                u16_words(info.data),
            ),
            crate::tensor::DtypeView::F16 => crate::tensor::ValuesView::F16(u16_words(info.data)),
            crate::tensor::DtypeView::F32 => crate::tensor::ValuesView::F32(u32_words(info.data)),
            crate::tensor::DtypeView::I64 => crate::tensor::ValuesView::I64(i64_words(info.data)),
            _ => crate::tensor::ValuesView::I32(i32_words(info.data)),
        },
        shape: signed_shape(info.shape),
    }
}

fn signed_sizes(shape: &[usize]) -> (r: Vec<i64>)
    ensures
        r@ == signed_shape(shape@),
{
    let mut v: Vec<i64> = Vec::new();
    for i in 0..shape.len()
        invariant
            v@ == signed_shape(shape@).take(i as int),
    {
        v.push(shape[i] as i64);
    }
    v
}

/// A well-formed tensor decodes to as many elements as its shape calls for.
pub proof fn law_decoded_count(info: crate::tensor::TensorInfo)
    requires
        info.wf(),
        decode_error(info) is None,
    ensures
        decoded(info).values.len() == crate::tensor::element_count(info.shape),
{
    let n = crate::tensor::element_count(info.shape);
    match info.dtype {
        crate::tensor::DtypeView::BF16 | crate::tensor::DtypeView::F16 => {
            assert(info.data.len() == n * 2);
        },
        crate::tensor::DtypeView::I64 => {
            assert(info.data.len() == n * 8);
        },
        _ => {
            assert(info.data.len() == n * 4);
        },
    }
}

/// Of a well-formed tensor the element type alone decides whether it can be
/// read: its bytes always divide into elements.
pub proof fn law_type_decides_readability(info: crate::tensor::TensorInfo)
    requires
        info.wf(),
    ensures
        decode_error(info) == match info.dtype {
            crate::tensor::DtypeView::U32 | crate::tensor::DtypeView::Other(_) => Some(
                crate::error::dtype_error(info.dtype.name(), signed_shape(info.shape)),
            ),
            _ => None,
        },
        floating_error(info) == match info.dtype {
            crate::tensor::DtypeView::F32
            | crate::tensor::DtypeView::F16
            | crate::tensor::DtypeView::BF16 => None,
            _ => Some(crate::error::floating_dtype_error(info.dtype.name())),
        },
        packed_words_error(info.data, info.dtype) == match info.dtype {
            crate::tensor::DtypeView::U32 => None,
            crate::tensor::DtypeView::I32 => Some(crate::error::signed_storage_error()),
            _ => Some(crate::error::packed_dtype_error(info.dtype.name())),
        },
{
    let n = crate::tensor::element_count(info.shape);
    match info.dtype {
        crate::tensor::DtypeView::BF16 | crate::tensor::DtypeView::F16 => {
            assert(info.data.len() == n * 2);
        },
        crate::tensor::DtypeView::I64 => {
            assert(info.data.len() == n * 8);
        },
        crate::tensor::DtypeView::Other(_) => {},
        _ => {
            assert(info.data.len() == n * 4);
        },
    }
}

/// Decodes a tensor that is not quantized.
pub fn tensor_from_view(view: &TensorView<'_>) -> (r: Result<Tensor, VoxtralError>)
    ensures
        match r {
            Ok(t) => decode_error(view@) is None && t@ == decoded(view@),
            Err(e) => decode_error(view@) == Some(e@),
        },
{
    let shape = signed_sizes(&view.shape);
    let values = match &view.dtype {
        Dtype::BF16 => TensorValues::BF16(decode_bf16(view.data)?),
        Dtype::F16 => TensorValues::F16(decode_f16(view.data)?),
        Dtype::F32 => TensorValues::F32(decode_f32(view.data)?),
        Dtype::I64 => TensorValues::I64(decode_i64(view.data)?),
        Dtype::I32 => TensorValues::I32(decode_i32(view.data)?),
        other => {
            return Err(VoxtralError::dtype(other.name(), &shape));
        },
    };
    Ok(Tensor { values, shape })
}

/// A tensor can be decoded exactly where its elements have one of five types
/// and its bytes divide into them; and the error says which of the two fails.
pub proof fn law_decodable(info: crate::tensor::TensorInfo)
    ensures
        decode_error(info) is None <==> {
            ||| (info.dtype is BF16 || info.dtype is F16) && info.data.len() % 2 == 0
            ||| (info.dtype is F32 || info.dtype is I32) && info.data.len() % 4 == 0
            ||| info.dtype is I64 && info.data.len() % 8 == 0
        },
        (info.dtype is BF16 || info.dtype is F16) && info.data.len() % 2 != 0 ==> decode_error(info)
            == Some(crate::error::alignment_error(2)),
        (info.dtype is F32 || info.dtype is I32) && info.data.len() % 4 != 0 ==> decode_error(info)
            == Some(crate::error::alignment_error(4)),
        info.dtype is I64 && info.data.len() % 8 != 0 ==> decode_error(info) == Some(
            crate::error::alignment_error(8),
        ),
        info.dtype is U32 || info.dtype is Other ==> decode_error(info) == Some(
            crate::error::dtype_error(info.dtype.name(), signed_shape(info.shape)),
        ),
{
}

/// A tensor can be read as single-precision numbers exactly where it holds
/// floating-point numbers and its bytes divide into them; and the error says
/// which of the two fails.
pub proof fn law_floating_readable(info: crate::tensor::TensorInfo)
    ensures
        floating_error(info) is None <==> {
            ||| (info.dtype is BF16 || info.dtype is F16) && info.data.len() % 2 == 0
            ||| info.dtype is F32 && info.data.len() % 4 == 0
        },
        (info.dtype is BF16 || info.dtype is F16) && info.data.len() % 2 != 0 ==> floating_error(
            info,
        ) == Some(crate::error::alignment_error(2)),
        info.dtype is F32 && info.data.len() % 4 != 0 ==> floating_error(info) == Some(
            crate::error::alignment_error(4),
        ),
        !(info.dtype is BF16 || info.dtype is F16 || info.dtype is F32) ==> floating_error(info)
            == Some(crate::error::floating_dtype_error(info.dtype.name())),
{
}

/// Packed words can be read exactly where they are unsigned 32-bit words and
/// the bytes divide into them; and the error says what fails.
pub proof fn law_packed_readable(data: Seq<u8>, dtype: crate::tensor::DtypeView)
    ensures
        packed_words_error(data, dtype) is None <==> dtype is U32 && data.len() % 4 == 0,
        dtype is U32 && data.len() % 4 != 0 ==> packed_words_error(data, dtype) == Some(
            crate::error::packed_alignment_error(),
        ),
        dtype is I32 ==> packed_words_error(data, dtype) == Some(
            crate::error::signed_storage_error(),
        ),
        !(dtype is U32 || dtype is I32) ==> packed_words_error(data, dtype) == Some(
            crate::error::packed_dtype_error(dtype.name()),
        ),
{
}

/// A shape keeps its rank, and the size at each position.
pub proof fn law_shape_kept(shape: Seq<usize>)
    ensures
        signed_shape(shape).len() == shape.len(),
        forall|i: int|
            0 <= i < shape.len() && shape[i] <= i64::MAX ==> #[trigger] signed_shape(shape)[i]
                == shape[i],
        forall|i: int|
            0 <= i < shape.len() ==> #[trigger] signed_shape(shape)[i] == shape[i] as i64,
{
}

/// A decoded tensor keeps the rank, each size and the type of the stored one,
/// and has its words as elements.
pub proof fn law_decoded_as_stored(info: crate::tensor::TensorInfo)
    ensures
        decoded(info).shape.len() == info.shape.len(),
        forall|i: int|
            0 <= i < info.shape.len() ==> #[trigger] decoded(info).shape[i] == info.shape[i] as i64,
        info.dtype is BF16 ==> decoded(info).values == crate::tensor::ValuesView::BF16(
            u16_words(info.data),
        ),
        info.dtype is F16 ==> decoded(info).values == crate::tensor::ValuesView::F16(
            u16_words(info.data),
        ),
        info.dtype is F32 ==> decoded(info).values == crate::tensor::ValuesView::F32(
            u32_words(info.data),
        ),
        info.dtype is I64 ==> decoded(info).values == crate::tensor::ValuesView::I64(
            i64_words(info.data),
        ),
        info.dtype is I32 ==> decoded(info).values == crate::tensor::ValuesView::I32(
            i32_words(info.data),
        ),
{
}

/// `single` is the single-precision pattern of a stored floating-point number,
/// by the format in which it is stored: that number itself; the pattern above
/// sixteen zeros; or the number with the same sign and value. What is not a
/// number has the highest bit of its fraction set.
pub open spec fn stands_for(info: crate::tensor::TensorInfo, i: int, single: u32) -> bool {
    let half = info.data[2 * i] + info.data[2 * i + 1] * 0x100;
    match info.dtype {
        crate::tensor::DtypeView::F32 => single == info.data[4 * i] + info.data[4 * i + 1] * 0x100
            + info.data[4 * i + 2] * 0x1_0000 + info.data[4 * i + 3] * 0x100_0000,
        crate::tensor::DtypeView::BF16 => if half % 0x8000 <= 0x7F80 {
            single == half * 0x1_0000
        } else {
            single == (half as u16 | 0x40) * 0x1_0000
        },
        crate::tensor::DtypeView::F16 => if (half / 1024) % 32 != 31 {
            &&& single as int / 0x8000_0000 == half / 0x8000
            &&& single as int % 0x8000_0000 < 0x7F80_0000
            &&& crate::float_bits::single_magnitude(single) == crate::float_bits::half_magnitude(
                half as u16,
            ) * vstd::arithmetic::power2::pow2(125)
        } else if half % 1024 == 0 {
            single == (half / 0x8000) * 0x8000_0000 + 0x7F80_0000
        } else {
            single == (half / 0x8000) * 0x8000_0000 + 0x7F80_0000 + ((half % 1024) as u16 | 0x200)
                * 8192
        },
        _ => false,
    }
}

/// Each element of a floating-point tensor is widened by the tensor's own
/// format.
pub proof fn law_widened_by_own_format(info: crate::tensor::TensorInfo, i: int)
    requires
        info.dtype is BF16 || info.dtype is F16 || info.dtype is F32,
        0 <= i,
        info.dtype is F32 ==> 4 * i + 4 <= info.data.len(),
        !(info.dtype is F32) ==> 2 * i + 2 <= info.data.len(),
    ensures
        i < floating_values(info).len(),
        stands_for(info, i, floating_values(info)[i]),
{
    if info.dtype is F32 {
        assert(floating_values(info)[i] == le_u32(info.data, 4 * i) as u32);
    } else {
        let h = u16_words(info.data)[i];
        assert(h == info.data[2 * i] + info.data[2 * i + 1] * 0x100);
        if info.dtype is BF16 {
            crate::float_bits::law_bf16_is_high_half(h);
        } else if (h as int / 1024) % 32 != 31 {
            crate::float_bits::law_half_lossless(h);
        } else {
            crate::float_bits::law_half_special(h);
        }
    }
}

/// A floating-point tensor has one element for each four or two of its bytes.
pub proof fn law_floating_count(info: crate::tensor::TensorInfo)
    ensures
        info.dtype is F32 ==> floating_values(info).len() == info.data.len() / 4,
        info.dtype is BF16 || info.dtype is F16 ==> floating_values(info).len() == info.data.len()
            / 2,
{
}

} // verus!
