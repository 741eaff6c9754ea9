//! Reconstruction of a quantized weight tensor.

use vstd::prelude::*;
use vstd::arithmetic::div_mod::*;
use vstd::arithmetic::mul::*;
use vstd::arithmetic::power2::*;

use crate::decode::{decode_tensor_as_f32, decode_u32};
use crate::error::VoxtralError;
use crate::float_bits::narrow_to_bf16;
use crate::packing::dequantize_affine_packed_values;
use crate::quantization::QuantizationConfig;
use crate::tensor::{Tensor, TensorValues, TensorView};

verus! {

/// The quotient rounded up.
pub open spec fn quotient_up(n: int, d: int) -> int {
    if n % d == 0 {
        n / d
    } else {
        n / d + 1
    }
}

/// The columns that a matrix of scales calls for.
pub open spec fn in_features(
    scales: crate::tensor::TensorInfo,
    quantization: QuantizationConfig,
) -> int {
    scales.shape[1] * quantization.group_size
}

/// The words that a row of so many columns takes.
pub open spec fn expected_words(
    scales: crate::tensor::TensorInfo,
    quantization: QuantizationConfig,
) -> int {
    quotient_up(in_features(scales, quantization), 32int / quantization.bits as int)
}

/// The sizes of a weight and its scales can be computed: values have from 1
/// to 32 bits, and the number of columns is a `usize`.
pub open spec fn sizes_computable(
    weight: crate::tensor::TensorInfo,
    scales: crate::tensor::TensorInfo,
    quantization: QuantizationConfig,
) -> bool {
    weight.shape.len() == 2 && scales.shape.len() == 2 ==> {
        &&& 0 < quantization.bits <= 32
        &&& in_features(scales, quantization) <= usize::MAX
    }
}

/// Why a quantized weight cannot be reconstructed.
pub open spec fn dequantize_error(
    weight: crate::tensor::TensorInfo,
    scales: crate::tensor::TensorInfo,
    biases: Option<crate::tensor::TensorInfo>,
    quantization: QuantizationConfig,
) -> Option<crate::error::ErrorView> {
    if weight.shape.len() != 2 {
        Some(crate::error::weight_rank_error(weight.shape))
    } else if scales.shape.len() != 2 {
        Some(crate::error::scales_rank_error(scales.shape))
    } else if weight.shape[1] != expected_words(scales, quantization) {
        Some(
            crate::error::packed_shape_error(
                weight.shape,
                quantization.bits as nat,
                quantization.group_size as nat,
                expected_words(scales, quantization) as nat,
            ),
        )
    } else if crate::decode::packed_words_error(weight.data, weight.dtype) is Some {
        crate::decode::packed_words_error(weight.data, weight.dtype)
    } else if scales.shape[0] != weight.shape[0] {
        Some(crate::error::scales_shape_error(scales.shape, weight.shape[0] as nat))
    } else if crate::decode::floating_error(scales) is Some {
        crate::decode::floating_error(scales)
    } else if biases is Some && biases->0.shape != scales.shape {
        Some(crate::error::biases_shape_error(biases->0.shape, scales.shape))
    } else if biases is Some && crate::decode::floating_error(biases->0) is Some {
        crate::decode::floating_error(biases->0)
    } else if !crate::quantization::bits_supported(quantization.bits as nat) {
        Some(crate::error::bits_error(quantization.bits as nat))
    } else {
        None
    }
}

/// The layout of a weight that goes with its scales.
pub open spec fn layout(
    weight: crate::tensor::TensorInfo,
    scales: crate::tensor::TensorInfo,
    quantization: QuantizationConfig,
) -> crate::packing::Layout {
    crate::packing::Layout {
        packed_in: weight.shape[1] as int,
        in_features: in_features(scales, quantization),
        n_groups: scales.shape[1] as int,
        bits: quantization.bits as int,
        group_size: quantization.group_size as int,
    }
}

/// The biases, which are zero where there are none.
pub open spec fn bias_values(
    scales: crate::tensor::TensorInfo,
    biases: Option<crate::tensor::TensorInfo>,
) -> Seq<u32> {
    match biases {
        Some(b) => crate::decode::floating_values(b),
        None => Seq::new(crate::decode::floating_values(scales).len(), |i: int| 0u32),
    }
}

/// `tensor` is the reconstructed weight: a bfloat16 matrix whose elements are
/// the results of `affine`, each rounded.
pub open spec fn dequantizes<F: Fn(u32, u32, u32) -> u32>(
    affine: F,
    weight: crate::tensor::TensorInfo,
    scales: crate::tensor::TensorInfo,
    biases: Option<crate::tensor::TensorInfo>,
    quantization: QuantizationConfig,
    tensor: crate::tensor::TensorContents,
) -> bool {
    exists|singles: Seq<u32>|
        {
            &&& #[trigger] crate::packing::reconstructs(
                layout(weight, scales, quantization),
                affine,
                crate::decode::u32_words(weight.data),
                crate::decode::floating_values(scales),
                bias_values(scales, biases),
                singles,
            )
            &&& singles.len() == weight.shape[0] * in_features(scales, quantization)
            &&& tensor.values == crate::tensor::ValuesView::BF16(
                singles.map_values(|x: u32| crate::float_bits::bf16_narrowed(x)),
            )
            &&& tensor.shape == seq![
                weight.shape[0] as i64,
                in_features(scales, quantization) as i64,
            ]
        }
}

proof fn lemma_matrix_count(shape: Seq<usize>)
    requires
        shape.len() == 2,
    ensures
        crate::tensor::element_count(shape) == shape[0] * shape[1],
{
    reveal_with_fuel(crate::tensor::element_count, 3);
    assert(1 * shape[0] == shape[0]);
}

proof fn lemma_floating_count(info: crate::tensor::TensorInfo)
    requires
        info.wf(),
        crate::decode::floating_error(info) is None,
    ensures
        crate::decode::floating_values(info).len() == crate::tensor::element_count(info.shape),
        crate::tensor::element_count(info.shape) <= usize::MAX,
{
    let n = crate::tensor::element_count(info.shape);
    if info.dtype is F32 {
        assert(info.data.len() == n * 4);
    } else {
        assert(info.data.len() == n * 2);
    }
}

/// Every index that the elements of a weight reach is in bounds.
proof fn lemma_indices_in_bounds(out: int, words: int, groups: int, group_size: int, per: int)
    requires
        out > 0,
        0 <= words,
        0 <= groups,
        0 <= group_size,
        groups * group_size > 0,
        per > 0,
        words == quotient_up(groups * group_size, per),
    ensures
        group_size > 0,
        (out - 1) * words + (groups * group_size - 1) / per < out * words,
        (out - 1) * groups + (groups * group_size - 1) / group_size < out * groups,
        groups * group_size <= words * per,
{
    let n = groups * group_size;
    assert(group_size > 0) by (nonlinear_arith)
        requires
            groups * group_size > 0,
            0 <= group_size,
            0 <= groups,
    ;
    lemma_fundamental_div_mod(n, per);
    lemma_mod_bound(n, per);
    assert(n <= words * per) by (nonlinear_arith)
        requires
            n == per * (n / per) + n % per,
            0 <= n % per < per,
            words == n / per && n % per == 0 || words == n / per + 1,
    ;
    assert((n - 1) / per < words) by {
        lemma_fundamental_div_mod(n - 1, per);
        lemma_mod_bound(n - 1, per);
        assert((n - 1) / per < words) by (nonlinear_arith)
            requires
                n - 1 == per * ((n - 1) / per) + (n - 1) % per,
                0 <= (n - 1) % per,
                n <= words * per,
                per > 0,
        ;
    }
    assert((n - 1) / group_size < groups) by {
        lemma_fundamental_div_mod(n - 1, group_size);
        lemma_mod_bound(n - 1, group_size);
        assert((n - 1) / group_size < groups) by (nonlinear_arith)
            requires
                n - 1 == group_size * ((n - 1) / group_size) + (n - 1) % group_size,
                0 <= (n - 1) % group_size,
                n == groups * group_size,
                group_size > 0,
        ;
    }
    assert((out - 1) * words + words == out * words) by (nonlinear_arith);
    assert((out - 1) * groups + groups == out * groups) by (nonlinear_arith);
}

fn rounded(singles: &Vec<u32>) -> (r: Vec<u16>)
    ensures
        r@ == singles@.map_values(|x: u32| crate::float_bits::bf16_narrowed(x)),
{
    let ghost target = singles@.map_values(|x: u32| crate::float_bits::bf16_narrowed(x));
    let mut v: Vec<u16> = Vec::new();
    for i in 0..singles.len()
        invariant
            target == singles@.map_values(|x: u32| crate::float_bits::bf16_narrowed(x)),
            v@ == target.take(i as int),
    {
        v.push(narrow_to_bf16(singles[i]));
    }
    v
}

fn zeros(n: usize) -> (r: Vec<u32>)
    ensures
        r@ == Seq::new(n as nat, |i: int| 0u32),
{
    let mut v: Vec<u32> = Vec::new();
    for i in 0..n
        invariant
            v@ == Seq::new(i as nat, |j: int| 0u32),
    {
        v.push(0);
    }
    v
}

fn same_sizes(a: &[usize], b: &[usize]) -> (r: bool)
    ensures
        r == (a@ == b@),
{
    if a.len() != b.len() {
        return false;
    }
    for i in 0..a.len()
        invariant
            a@.len() == b@.len(),
            forall|j: int| 0 <= j < i ==> a@[j] == b@[j],
    {
        if a[i] != b[i] {
            return false;
        }
    }
    assert(a@ =~= b@);
    true
}

/// Reconstructs a weight matrix from its packed words, its scales and, where
/// there are any, its biases.
///
/// `affine` computes one element, in single precision, from its packed integer
/// and from the scale and the bias of its group; all but the packed integer
/// are bit patterns.
pub fn dequantize_affine_tensor<F: Fn(u32, u32, u32) -> u32>(
    weight: &TensorView<'_>,
    scales: &TensorView<'_>,
    biases: Option<&TensorView<'_>>,
    quantization: &QuantizationConfig,
    affine: &F,
) -> (r: Result<Tensor, VoxtralError>)
    requires
        weight@.wf(),
        scales@.wf(),
        biases matches Some(b) ==> b@.wf(),
        sizes_computable(weight@, scales@, *quantization),
        forall|q: u32, s: u32, b: u32| #[trigger] affine.requires((q, s, b)),
    ensures
        ({
            let bias_info = match biases {
                Some(b) => Some(b@),
                None => None,
            };
            let error = dequantize_error(weight@, scales@, bias_info, *quantization);
            match r {
                Ok(t) => {
                    &&& error is None
                    &&& dequantizes(*affine, weight@, scales@, bias_info, *quantization, t@)
                },
                Err(e) => error == Some(e@),
            }
        }),
{
    let ghost bias_info: Option<crate::tensor::TensorInfo> = match biases {
        Some(b) => Some(b@),
        None => None,
    };
    if weight.shape.len() != 2 {
        return Err(VoxtralError::weight_rank(&weight.shape));
    }
    if scales.shape.len() != 2 {
        return Err(VoxtralError::scales_rank(&scales.shape));
    }
    let out_features = weight.shape[0];
    let packed_in = weight.shape[1];
    let n_groups = scales.shape[1];
    let columns = n_groups * quantization.group_size;
    proof {
        lemma_div_is_ordered(quantization.bits as int, 32, quantization.bits as int);
        lemma_div_basics(quantization.bits as int);
        lemma_div_is_ordered_by_denominator(32, 1, quantization.bits as int);
    }
    let pack_factor: usize = 32 / quantization.bits;
    let mut expected: usize = columns / pack_factor;
    if columns % pack_factor != 0 {
        proof {
            lemma_fundamental_div_mod(columns as int, pack_factor as int);
            let q = columns as int / pack_factor as int;
            assert(q < columns) by (nonlinear_arith)
                requires
                    columns == pack_factor * q + columns % pack_factor,
                    columns % pack_factor > 0,
                    pack_factor > 0,
                    q >= 0,
            ;
        }
        expected = expected + 1;
    }
    if packed_in != expected {
        return Err(
            VoxtralError::packed_shape(
                &weight.shape,
                quantization.bits,
                quantization.group_size,
                expected,
            ),
        );
    }
    let packed = decode_u32(weight.data, &weight.dtype)?;
    if scales.shape[0] != out_features {
        return Err(VoxtralError::scales_shape(&scales.shape, out_features));
    }
    let scale_values = decode_tensor_as_f32(scales)?;
    let bias_values = match biases {
        Some(biases) => {
            if !same_sizes(&biases.shape, &scales.shape) {
                return Err(VoxtralError::biases_shape(&biases.shape, &scales.shape));
            }
            decode_tensor_as_f32(biases)?
        },
        None => zeros(scale_values.len()),
    };
    proof {
        lemma_matrix_count(weight@.shape);
        lemma_matrix_count(scales@.shape);
        lemma_floating_count(scales@);
        if biases is Some {
            lemma_floating_count(bias_info->0);
        }
        if crate::quantization::bits_supported(quantization.bits as nat) && out_features > 0
            && columns > 0 {
            lemma_indices_in_bounds(
                out_features as int,
                packed_in as int,
                n_groups as int,
                quantization.group_size as int,
                pack_factor as int,
            );
            assert(out_features * columns <= out_features * (packed_in * pack_factor)) by {
                lemma_mul_inequality(
                    columns as int,
                    packed_in * pack_factor,
                    out_features as int,
                );
                lemma_mul_is_commutative(columns as int, out_features as int);
                lemma_mul_is_commutative(packed_in * pack_factor, out_features as int);
            }
            assert(out_features * (packed_in * pack_factor) <= (out_features * packed_in) * 32)
                by (nonlinear_arith)
                requires
                    0 <= out_features,
                    0 <= packed_in,
                    0 < pack_factor <= 32,
            ;
            assert(weight@.data.len() == (out_features * packed_in) * 4);
            assert(packed@.len() == out_features * packed_in);
            assert(scale_values@.len() == out_features * n_groups);
            let reached = crate::packing::Layout::new(
                packed_in,
                columns,
                n_groups,
                quantization.bits,
                quantization.group_size,
            );
            assert(reached.word_index(out_features - 1, columns - 1) < packed@.len());
            assert(reached.group_index(out_features - 1, columns - 1) < scale_values@.len());
        }
    }
    let singles = dequantize_affine_packed_values(
        &packed,
        out_features,
        packed_in,
        columns,
        &scale_values,
        &bias_values,
        n_groups,
        quantization.bits,
        quantization.group_size,
        affine,
    )?;
    let values = rounded(&singles);
    let mut shape: Vec<i64> = Vec::new();
    shape.push(out_features as i64);
    shape.push(columns as i64);
    let tensor = Tensor { values: TensorValues::BF16(values), shape };
    proof {
        assert(tensor@.shape =~= seq![out_features as i64, columns as i64]);
        assert(crate::packing::reconstructs(
            layout(weight@, scales@, *quantization),
            *affine,
            crate::decode::u32_words(weight@.data),
            crate::decode::floating_values(scales@),
            crate::dequantize::bias_values(scales@, bias_info),
            singles@,
        ));
    }
    Ok(tensor)
}

/// A reconstructed weight is a matrix, of as many elements as its shape calls
/// for.
pub proof fn law_dequantized_count<F: Fn(u32, u32, u32) -> u32>(
    affine: F,
    weight: crate::tensor::TensorInfo,
    scales: crate::tensor::TensorInfo,
    biases: Option<crate::tensor::TensorInfo>,
    quantization: QuantizationConfig,
    tensor: crate::tensor::TensorContents,
)
    requires
        dequantizes(affine, weight, scales, biases, quantization, tensor),
    ensures
        tensor.shape == seq![
            weight.shape[0] as i64,
            (scales.shape[1] * quantization.group_size) as i64,
        ],
        tensor.values is BF16,
        tensor.values->BF16_0.len() == weight.shape[0] * (scales.shape[1]
            * quantization.group_size),
{
}

/// A weight, its scales and its biases fix what they are reconstructed to, as
/// far as `affine` fixes its results.
pub proof fn law_dequantized_fixed<F: Fn(u32, u32, u32) -> u32>(
    affine: F,
    weight: crate::tensor::TensorInfo,
    scales: crate::tensor::TensorInfo,
    biases: Option<crate::tensor::TensorInfo>,
    quantization: QuantizationConfig,
    a: crate::tensor::TensorContents,
    b: crate::tensor::TensorContents,
)
    requires
        dequantizes(affine, weight, scales, biases, quantization, a),
        dequantizes(affine, weight, scales, biases, quantization, b),
        forall|args: (u32, u32, u32), x: u32, y: u32| #[trigger]
            affine.ensures(args, x) && #[trigger] affine.ensures(args, y) ==> x == y,
    ensures
        a == b,
{
    let l = layout(weight, scales, quantization);
    let packed = crate::decode::u32_words(weight.data);
    let scale_values = crate::decode::floating_values(scales);
    let biases_used = bias_values(scales, biases);
    let narrowed = |x: u32| crate::float_bits::bf16_narrowed(x);
    let x = choose|singles: Seq<u32>|
        {
            &&& #[trigger] crate::packing::reconstructs(
                l,
                affine,
                packed,
                scale_values,
                biases_used,
                singles,
            )
            &&& singles.len() == weight.shape[0] * in_features(scales, quantization)
            &&& a.values == crate::tensor::ValuesView::BF16(singles.map_values(narrowed))
        };
    let y = choose|singles: Seq<u32>|
        {
            &&& #[trigger] crate::packing::reconstructs(
                l,
                affine,
                packed,
                scale_values,
                biases_used,
                singles,
            )
            &&& singles.len() == weight.shape[0] * in_features(scales, quantization)
            &&& b.values == crate::tensor::ValuesView::BF16(singles.map_values(narrowed))
        };
    assert forall|i: int| 0 <= i < x.len() implies x[i] == y[i] by {
        let row = i / l.in_features;
        let col = i % l.in_features;
        let group = l.group_index(row, col);
        let args = (l.packed_value(packed, row, col), scale_values[group], biases_used[group]);
        assert(affine.ensures(args, x[i]) && affine.ensures(args, y[i]));
    }
    assert(x =~= y);
}

/// An element of a reconstructed weight is the rounding of what `affine` makes
/// of the element's packed bits, of the stored scale of its group and of the
/// stored bias of its group, scale and bias each widened by the format in which
/// it is stored. Zero is the bias only where there are no biases.
pub proof fn law_dequantized_element<F: Fn(u32, u32, u32) -> u32>(
    affine: F,
    weight: crate::tensor::TensorInfo,
    scales: crate::tensor::TensorInfo,
    biases: Option<crate::tensor::TensorInfo>,
    quantization: QuantizationConfig,
    tensor: crate::tensor::TensorContents,
    row: int,
    col: int,
)
    requires
        dequantizes(affine, weight, scales, biases, quantization, tensor),
        dequantize_error(weight, scales, biases, quantization) is None,
        weight.wf(),
        scales.wf(),
        biases matches Some(b) ==> b.wf(),
        0 <= row < weight.shape[0],
        0 <= col < scales.shape[1] * quantization.group_size <= usize::MAX,
    ensures
        ({
            let columns = scales.shape[1] * quantization.group_size;
            let per = 32int / quantization.bits as int;
            let at = 4 * (row * weight.shape[1] + col / per);
            let word = weight.data[at] + weight.data[at + 1] * 0x100 + weight.data[at + 2]
                * 0x1_0000 + weight.data[at + 3] * 0x100_0000;
            let q = (word as nat / pow2(((col % per) * quantization.bits) as nat)) % pow2(
                quantization.bits as nat,
            );
            let group = row * scales.shape[1] + col / quantization.group_size as int;
            exists|s: u32, b: u32, single: u32|
                {
                    &&& #[trigger] affine.ensures((q as u32, s, b), single)
                    &&& crate::decode::stands_for(scales, group, s)
                    &&& match biases {
                        Some(stored) => crate::decode::stands_for(stored, group, b),
                        None => b == 0,
                    }
                    &&& tensor.values is BF16
                    &&& tensor.values->BF16_0[row * columns + col]
                        == crate::float_bits::bf16_narrowed(single)
                }
        }),
{
    let columns = in_features(scales, quantization);
    let per = 32int / quantization.bits as int;
    let packed = crate::decode::u32_words(weight.data);
    let scale_values = crate::decode::floating_values(scales);
    let biases_used = bias_values(scales, biases);
    let narrowed = |x: u32| crate::float_bits::bf16_narrowed(x);
    let singles = choose|singles: Seq<u32>|
        {
            &&& #[trigger] crate::packing::reconstructs(
                layout(weight, scales, quantization),
                affine,
                packed,
                scale_values,
                biases_used,
                singles,
            )
            &&& singles.len() == weight.shape[0] * columns
            &&& tensor.values == crate::tensor::ValuesView::BF16(singles.map_values(narrowed))
        };
    let group = row * scales.shape[1] + col / quantization.group_size as int;
    lemma_matrix_count(weight.shape);
    lemma_matrix_count(scales.shape);
    lemma_floating_count(scales);
    assert(per >= 1) by {
        lemma_div_is_ordered(quantization.bits as int, 32, quantization.bits as int);
        lemma_div_basics(quantization.bits as int);
    }
    lemma_indices_in_bounds(
        weight.shape[0] as int,
        weight.shape[1] as int,
        scales.shape[1] as int,
        quantization.group_size as int,
        per,
    );
    lemma_element_in_bounds(
        weight.shape[0] as int,
        weight.shape[1] as int,
        per,
        columns,
        row,
        col,
    );
    lemma_element_in_bounds(
        weight.shape[0] as int,
        scales.shape[1] as int,
        quantization.group_size as int,
        columns,
        row,
        col,
    );
    assert(row * columns + col < weight.shape[0] * columns && 0 <= row * columns)
        by (nonlinear_arith)
        requires
            0 <= row < weight.shape[0],
            0 <= col < columns,
    ;
    let word_at = row * weight.shape[1] + col / per;
    assert(weight.data.len() == (weight.shape[0] * weight.shape[1]) * 4);
    let at = 4 * word_at;
    assert(packed[word_at] == crate::decode::le_u32(weight.data, at) as u32);
    let word = weight.data[at] + weight.data[at + 1] * 0x100 + weight.data[at + 2] * 0x1_0000
        + weight.data[at + 3] * 0x100_0000;
    assert(packed[word_at] == word);
    crate::decode::law_widened_by_own_format(scales, group);
    if biases is Some {
        lemma_floating_count(biases->0);
        crate::decode::law_widened_by_own_format(biases->0, group);
    }
    crate::packing::law_reconstructed_element(
        weight.shape[1],
        columns as usize,
        scales.shape[1],
        quantization.bits,
        quantization.group_size,
        affine,
        packed,
        scale_values,
        biases_used,
        singles,
        row,
        col,
    );
    let s = scale_values[group];
    let b = biases_used[group];
    let single = singles[row * columns + col];
    let q = (word as nat / pow2(((col % per) * quantization.bits) as nat)) % pow2(
        quantization.bits as nat,
    );
    assert(affine.ensures((q as u32, s, b), single));
    assert(crate::decode::stands_for(scales, group, s));
    assert(biases is None ==> b == 0);
    assert(biases is Some ==> crate::decode::stands_for(biases->0, group, b));
    assert(tensor.values->BF16_0[row * columns + col] == crate::float_bits::bf16_narrowed(single));
}

/// The place of an element in a row-major matrix of runs is within the matrix.
proof fn lemma_element_in_bounds(
    rows: int,
    stride: int,
    run: int,
    columns: int,
    row: int,
    col: int,
)
    requires
        0 <= row < rows,
        0 <= col < columns,
        0 < run,
        0 <= stride,
        (rows - 1) * stride + (columns - 1) / run < rows * stride,
    ensures
        0 <= row * stride + col / run < rows * stride,
{
    lemma_mul_inequality(row, rows - 1, stride);
    lemma_mul_nonnegative(row, stride);
    lemma_div_is_ordered(col, columns - 1, run);
    lemma_div_pos_is_pos(col, run);
}

/// A weight can be reconstructed exactly where: the weight and its scales are
/// matrices of equally many rows; the weight has the fewest words per row that
/// hold its columns, as unsigned words; scales and biases are floating-point
/// numbers, shaped alike; and values have four or six bits.
pub proof fn law_dequantizable(
    weight: crate::tensor::TensorInfo,
    scales: crate::tensor::TensorInfo,
    biases: Option<crate::tensor::TensorInfo>,
    quantization: QuantizationConfig,
)
    requires
        weight.shape.len() == 2 && scales.shape.len() == 2 ==> 0 < quantization.bits <= 32,
    ensures
        dequantize_error(weight, scales, biases, quantization) is None <==> {
            let columns = scales.shape[1] * quantization.group_size;
            let per = 32int / quantization.bits as int;
            &&& weight.shape.len() == 2
            &&& scales.shape.len() == 2
            &&& columns <= weight.shape[1] * per < columns + per
            &&& weight.dtype is U32
            &&& weight.data.len() % 4 == 0
            &&& scales.shape[0] == weight.shape[0]
            &&& crate::decode::floating_error(scales) is None
            &&& biases matches Some(b) ==> b.shape == scales.shape && crate::decode::floating_error(
                b,
            ) is None
            &&& quantization.bits == 4 || quantization.bits == 6
        },
{
    if weight.shape.len() == 2 && scales.shape.len() == 2 {
        lemma_fewest_words(
            scales.shape[1] * quantization.group_size,
            quantization.bits as int,
            weight.shape[1] as int,
        );
    }
}

proof fn lemma_fewest_words(columns: int, bits: int, words: int)
    requires
        0 <= columns,
        0 < bits <= 32,
    ensures
        words == quotient_up(columns, 32int / bits) <==> columns <= words * (32int / bits)
            < columns + 32int / bits,
{
    let per = 32int / bits;
    lemma_div_is_ordered(bits, 32, bits);
    lemma_div_basics(bits);
    lemma_fundamental_div_mod(columns, per);
    lemma_mod_bound(columns, per);
    let up = quotient_up(columns, per);
    assert(columns <= up * per < columns + per) by (nonlinear_arith)
        requires
            columns == per * (columns / per) + columns % per,
            0 <= columns % per < per,
            up == columns / per && columns % per == 0 || up == columns / per + 1 && columns % per
                > 0,
    ;
    if columns <= words * per < columns + per {
        assert(words == up) by (nonlinear_arith)
            requires
                columns <= words * per < columns + per,
                columns <= up * per < columns + per,
                per > 0,
        ;
    }
}

/// The errors of a weight that cannot be reconstructed, in the order in which
/// they count.
pub proof fn law_dequantize_error_order(
    weight: crate::tensor::TensorInfo,
    scales: crate::tensor::TensorInfo,
    biases: Option<crate::tensor::TensorInfo>,
    quantization: QuantizationConfig,
    words: nat,
)
    requires
        weight.shape.len() == 2 && scales.shape.len() == 2 ==> {
            let columns = scales.shape[1] * quantization.group_size;
            let per = 32int / quantization.bits as int;
            &&& 0 < quantization.bits <= 32
            &&& columns <= words * per < columns + per
        },
    ensures
        ({
            let error = dequantize_error(weight, scales, biases, quantization);
            let matrices = weight.shape.len() == 2 && scales.shape.len() == 2;
            let packed = matrices && weight.shape[1] == words;
            let unsigned = packed && crate::decode::packed_words_error(
                weight.data,
                weight.dtype,
            ) is None;
            let rows = unsigned && scales.shape[0] == weight.shape[0];
            let scaled = rows && crate::decode::floating_error(scales) is None;
            let shaped = scaled && (biases matches Some(b) ==> b.shape == scales.shape);
            let biased = shaped && (biases matches Some(b) ==> crate::decode::floating_error(
                b,
            ) is None);
            &&& weight.shape.len() != 2 ==> error == Some(
                crate::error::weight_rank_error(weight.shape),
            )
            &&& weight.shape.len() == 2 && scales.shape.len() != 2 ==> error == Some(
                crate::error::scales_rank_error(scales.shape),
            )
            &&& matrices && !packed ==> error == Some(
                crate::error::packed_shape_error(
                    weight.shape,
                    quantization.bits as nat,
                    quantization.group_size as nat,
                    words,
                ),
            )
            &&& packed && !unsigned ==> error == crate::decode::packed_words_error(
                weight.data,
                weight.dtype,
            )
            &&& unsigned && !rows ==> error == Some(
                crate::error::scales_shape_error(scales.shape, weight.shape[0] as nat),
            )
            &&& rows && !scaled ==> error == crate::decode::floating_error(scales)
            &&& scaled && !shaped ==> error == Some(
                crate::error::biases_shape_error(biases->0.shape, scales.shape),
            )
            &&& shaped && !biased ==> error == crate::decode::floating_error(biases->0)
            &&& biased && quantization.bits != 4 && quantization.bits != 6 ==> error == Some(
                crate::error::bits_error(quantization.bits as nat),
            )
        }),
{
    if weight.shape.len() == 2 && scales.shape.len() == 2 {
        lemma_fewest_words(
            scales.shape[1] * quantization.group_size,
            quantization.bits as int,
            words as int,
        );
    }
}

/// Sizes can be computed for all but two matrices whose values have no width
/// from 1 to 32 bits or whose columns cannot be counted.
pub proof fn law_sizes_computable(
    weight: crate::tensor::TensorInfo,
    scales: crate::tensor::TensorInfo,
    quantization: QuantizationConfig,
)
    ensures
        sizes_computable(weight, scales, quantization) <==> weight.shape.len() != 2
            || scales.shape.len() != 2 || (1 <= quantization.bits <= 32 && scales.shape[1]
            * quantization.group_size <= usize::MAX),
{
}

} // verus!
