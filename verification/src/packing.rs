//! Unpacking of quantized values and their affine reconstruction.
//!
//! A matrix of small unsigned integers is packed row by row into 32-bit words,
//! from the least significant bits up. Each run of `group_size` columns of a
//! row has a scale and a bias of its own.

use vstd::prelude::*;
use vstd::arithmetic::div_mod::*;
use vstd::arithmetic::mul::*;
use vstd::arithmetic::power2::*;
use vstd::bits::*;

use crate::error::VoxtralError;
use crate::quantization::QuantizationConfig;

verus! {

/// How a packed matrix and its groups are laid out.
pub struct Layout {
    /// Words per row.
    pub packed_in: int,
    /// Columns.
    pub in_features: int,
    /// Groups per row.
    pub n_groups: int,
    /// Bits per packed value.
    pub bits: int,
    /// Columns per group.
    pub group_size: int,
}

impl Layout {
    /// The layout of the given sizes.
    pub open spec fn new(
        packed_in: usize,
        in_features: usize,
        n_groups: usize,
        bits: usize,
        group_size: usize,
    ) -> Layout {
        Layout {
            packed_in: packed_in as int,
            in_features: in_features as int,
            n_groups: n_groups as int,
            bits: bits as int,
            group_size: group_size as int,
        }
    }

    /// How many values a word holds.
    pub open spec fn per_word(self) -> int {
        32int / self.bits
    }

    /// The word that holds an element.
    pub open spec fn word_index(self, row: int, col: int) -> int {
        row * self.packed_in + col / self.per_word()
    }

    /// The group of an element.
    pub open spec fn group_index(self, row: int, col: int) -> int {
        row * self.n_groups + col / self.group_size
    }

    /// So many words and scales are enough for all elements of so many rows,
    /// and the number of the elements is a `usize`.
    pub open spec fn reaches(self, rows: int, words: int, scales: int) -> bool {
        rows > 0 && self.in_features > 0 ==> {
            &&& rows * self.in_features <= usize::MAX
            &&& self.group_size > 0
            &&& self.word_index(rows - 1, self.in_features - 1) < words
            &&& self.group_index(rows - 1, self.in_features - 1) < scales
        }
    }

    /// The packed integer of an element.
    pub open spec fn packed_value(self, packed: Seq<u32>, row: int, col: int) -> u32 {
        packed_field(
            packed[self.word_index(row, col)],
            (col % self.per_word()) as nat,
            self.bits as nat,
        ) as u32
    }
}

/// A field of a word, counted from the least significant end.
pub open spec fn packed_field(word: u32, slot: nat, bits: nat) -> nat {
    (word as nat / pow2(slot * bits)) % pow2(bits)
}

/// The word that holds the given values, the first of them lowest.
pub open spec fn packed_word(values: Seq<nat>, bits: nat) -> nat
    decreases values.len(),
{
    if values.len() == 0 {
        0
    } else {
        values[0] + pow2(bits) * packed_word(values.drop_first(), bits)
    }
}

/// `values` is the reconstructed matrix, row by row: each element is what
/// `affine` makes of its packed integer and of the scale and bias of its group.
pub open spec fn reconstructs<S, V, F: Fn(u32, S, S) -> V>(
    layout: Layout,
    affine: F,
    packed: Seq<u32>,
    scales: Seq<S>,
    biases: Seq<S>,
    values: Seq<V>,
) -> bool {
    forall|i: int|
        0 <= i < values.len() ==> {
            let row = i / layout.in_features;
            let col = i % layout.in_features;
            let group = layout.group_index(row, col);
            affine.ensures(
                (layout.packed_value(packed, row, col), scales[group], biases[group]),
                #[trigger] values[i],
            )
        }
}

proof fn lemma_values_per_word(bits: int)
    requires
        bits == 4 || bits == 6,
    ensures
        32int / bits == (if bits == 4 {
            8int
        } else {
            5int
        }),
{
    assert(32int / bits == (if bits == 4 {
        8int
    } else {
        5int
    })) by (nonlinear_arith)
        requires
            bits == 4 || bits == 6,
    ;
}

/// Reads a field of a word.
fn unpack(word: u32, slot: usize, bits: usize) -> (r: u32)
    requires
        crate::quantization::bits_supported(bits as nat),
        slot < 32usize / bits,
    ensures
        r == packed_field(word, slot as nat, bits as nat),
{
    proof {
        lemma_values_per_word(bits as int);
    }
    assert(slot * bits < 32) by (nonlinear_arith)
        requires
            bits == 4 && slot < 8 || bits == 6 && slot < 5,
    ;
    let shift: u32 = (slot * bits) as u32;
    let width: u32 = bits as u32;
    proof {
        lemma2_to64();
        lemma_u32_shr_is_div(word, shift);
        lemma_u32_low_bits_mask_is_mod(word >> shift, bits as nat);
        assert(1u32 << 4u32 == 16) by (bit_vector);
        assert(1u32 << 6u32 == 64) by (bit_vector);
    }
    let mask: u32 = (1u32 << width) - 1;
    (word >> shift) & mask
}

/// The index of the last element is the highest that is reached.
proof fn lemma_last_index(stride: int, run: int, row: int, col: int, last_row: int, last_col: int)
    requires
        0 <= stride,
        0 < run,
        0 <= row <= last_row,
        0 <= col <= last_col,
    ensures
        0 <= row * stride <= last_row * stride,
        0 <= col / run,
        row * stride + col / run <= last_row * stride + last_col / run,
{
    lemma_mul_inequality(row, last_row, stride);
    lemma_mul_nonnegative(row, stride);
    lemma_div_is_ordered(col, last_col, run);
    lemma_div_pos_is_pos(col, run);
}

/// Reconstructs a packed matrix, row by row.
///
/// `affine` computes one element from its packed integer and from the scale
/// and the bias of its group.
pub fn dequantize_affine_packed_values<S: Copy, V, F: Fn(u32, S, S) -> V>(
    packed: &[u32],
    out_features: usize,
    packed_in: usize,
    in_features: usize,
    scales: &[S],
    biases: &[S],
    n_groups: usize,
    bits: usize,
    group_size: usize,
    affine: &F,
) -> (r: Result<Vec<V>, VoxtralError>)
    requires
        forall|q: u32, s: S, b: S| #[trigger] affine.requires((q, s, b)),
        crate::quantization::bits_supported(bits as nat) ==> out_features * n_groups <= usize::MAX,
        crate::quantization::bits_supported(bits as nat) && scales@.len() == out_features * n_groups
            && biases@.len() == out_features * n_groups ==> Layout::new(
            packed_in,
            in_features,
            n_groups,
            bits,
            group_size,
        ).reaches(out_features as int, packed@.len() as int, scales@.len() as int),
    ensures
        match r {
            Ok(values) => {
                &&& crate::quantization::bits_supported(bits as nat)
                &&& scales@.len() == out_features * n_groups
                &&& biases@.len() == out_features * n_groups
                &&& values@.len() == out_features * in_features
                &&& reconstructs(
                    Layout::new(packed_in, in_features, n_groups, bits, group_size),
                    *affine,
                    packed@,
                    scales@,
                    biases@,
                    values@,
                )
            },
            Err(e) => if !crate::quantization::bits_supported(bits as nat) {
                e@ == crate::error::bits_error(bits as nat)
            } else {
                &&& scales@.len() != out_features * n_groups || biases@.len() != out_features
                    * n_groups
                &&& e@ == crate::error::group_count_error()
            },
        },
{
    if !QuantizationConfig::supports_bits(bits) {
        return Err(VoxtralError::bits(bits));
    }
    if scales.len() != out_features * n_groups || biases.len() != out_features * n_groups {
        return Err(VoxtralError::group_count());
    }
    let ghost layout = Layout::new(packed_in, in_features, n_groups, bits, group_size);
    let pack_factor: usize = 32 / bits;
    let n_words = packed.len();
    let n_scales = scales.len();
    proof {
        lemma_values_per_word(bits as int);
        assert(0 * in_features == 0);
    }
    let mut values: Vec<V> = Vec::new();
    for row in 0..out_features
        invariant
            forall|q: u32, s: S, b: S| #[trigger] affine.requires((q, s, b)),
            crate::quantization::bits_supported(bits as nat),
            n_words == packed@.len(),
            n_scales == scales@.len(),
            scales@.len() == out_features * n_groups,
            biases@.len() == out_features * n_groups,
            layout.reaches(out_features as int, n_words as int, n_scales as int),
            layout == Layout::new(packed_in, in_features, n_groups, bits, group_size),
            0 < pack_factor == layout.per_word(),
            values@.len() == row * in_features,
            reconstructs(layout, *affine, packed@, scales@, biases@, values@),
    {
        for col in 0..in_features
            invariant
                forall|q: u32, s: S, b: S| #[trigger] affine.requires((q, s, b)),
                crate::quantization::bits_supported(bits as nat),
                n_words == packed@.len(),
                n_scales == scales@.len(),
                scales@.len() == out_features * n_groups,
                biases@.len() == out_features * n_groups,
                row < out_features,
                layout.reaches(out_features as int, n_words as int, n_scales as int),
                layout == Layout::new(packed_in, in_features, n_groups, bits, group_size),
                0 < pack_factor == layout.per_word(),
                values@.len() == row * in_features + col,
                reconstructs(layout, *affine, packed@, scales@, biases@, values@),
        {
            proof {
                let last_row = out_features - 1;
                let last_col = in_features - 1;
                lemma_last_index(
                    packed_in as int,
                    pack_factor as int,
                    row as int,
                    col as int,
                    last_row,
                    last_col,
                );
                lemma_last_index(
                    n_groups as int,
                    group_size as int,
                    row as int,
                    col as int,
                    last_row,
                    last_col,
                );
            }
            let word = packed[row * packed_in + col / pack_factor];
            let q = unpack(word, col % pack_factor, bits);
            let group = row * n_groups + col / group_size;
            let value = affine(q, scales[group], biases[group]);
            proof {
                let i = values@.len() as int;
                lemma_fundamental_div_mod_converse_div(i, in_features as int, row as int, col as int);
                lemma_fundamental_div_mod_converse_mod(i, in_features as int, row as int, col as int);
            }
            values.push(value);
        }
        assert((row + 1) * in_features == row * in_features + in_features) by (nonlinear_arith);
    }
    Ok(values)
}

proof fn lemma_packed_word_bound(values: Seq<nat>, bits: nat)
    requires
        forall|k: int| 0 <= k < values.len() ==> #[trigger] values[k] < pow2(bits),
    ensures
        packed_word(values, bits) < pow2(values.len() * bits),
    decreases values.len(),
{
    if values.len() == 0 {
        lemma2_to64();
    } else {
        let rest = values.drop_first();
        lemma_packed_word_bound(rest, bits);
        assert(values.len() * bits == bits + rest.len() * bits) by (nonlinear_arith)
            requires
                values.len() == rest.len() + 1,
        ;
        lemma_pow2_adds(bits, rest.len() * bits);
        let p = pow2(bits);
        let w = packed_word(rest, bits);
        let b = pow2(rest.len() * bits);
        assert(values[0] + p * w < p * b) by (nonlinear_arith)
            requires
                values[0] < p,
                w + 1 <= b,
        ;
    }
}

proof fn lemma_packed_word_field(values: Seq<nat>, bits: nat, slot: nat)
    requires
        slot < values.len(),
        forall|k: int| 0 <= k < values.len() ==> #[trigger] values[k] < pow2(bits),
    ensures
        (packed_word(values, bits) / pow2(slot * bits)) % pow2(bits) == values[slot as int],
    decreases values.len(),
{
    let rest = values.drop_first();
    let p = pow2(bits);
    let w = packed_word(rest, bits);
    lemma_pow2_pos(bits);
    if slot == 0 {
        lemma2_to64();
        assert(packed_word(values, bits) / 1 == packed_word(values, bits));
        lemma_fundamental_div_mod_converse_mod(
            packed_word(values, bits) as int,
            p as int,
            w as int,
            values[0] as int,
        );
    } else {
        let below = (slot - 1) as nat;
        lemma_packed_word_field(rest, bits, below);
        assert(slot * bits == bits + below * bits) by (nonlinear_arith)
            requires
                slot == below + 1,
        ;
        lemma_pow2_adds(bits, below * bits);
        lemma_pow2_pos(below * bits);
        lemma_fundamental_div_mod_converse_div(
            packed_word(values, bits) as int,
            p as int,
            w as int,
            values[0] as int,
        );
        lemma_div_denominator(
            packed_word(values, bits) as int,
            p as int,
            pow2(below * bits) as int,
        );
    }
}

/// Unpacking undoes packing: each field of a word holds the value that was
/// packed into it.
pub proof fn law_unpack_packed_word(values: Seq<nat>, bits: nat, slot: nat)
    requires
        slot < values.len(),
        values.len() * bits <= 32,
        forall|k: int| 0 <= k < values.len() ==> #[trigger] values[k] < pow2(bits),
    ensures
        packed_word(values, bits) <= u32::MAX,
        packed_field(packed_word(values, bits) as u32, slot, bits) == values[slot as int],
{
    lemma_packed_word_bound(values, bits);
    lemma2_to64();
    if values.len() * bits < 32 {
        lemma_pow2_strictly_increases(values.len() * bits, 32);
    }
    lemma_packed_word_field(values, bits, slot);
}

/// Each word of a row holds its run of the row's values, the last word perhaps
/// fewer.
pub open spec fn packs_row(layout: Layout, packed: Seq<u32>, row: int, values: Seq<nat>) -> bool {
    &&& forall|k: int|
        0 <= k < values.len() ==> #[trigger] values[k] < pow2(layout.bits as nat)
    &&& forall|w: int|
        0 <= w && w * (32int / layout.bits) < values.len() ==> #[trigger] packed[row
            * layout.packed_in + w] == packed_word(
            values.subrange(
                w * (32int / layout.bits),
                vstd::math::min((w + 1) * (32int / layout.bits), values.len() as int),
            ),
            layout.bits as nat,
        )
}

/// Unpacking undoes packing of a row: every element is read back.
pub proof fn law_unpack_packed_row(
    layout: Layout,
    packed: Seq<u32>,
    row: int,
    values: Seq<nat>,
    col: int,
)
    requires
        0 < layout.bits <= 32,
        0 <= col < values.len(),
        packs_row(layout, packed, row, values),
    ensures
        layout.packed_value(packed, row, col) == values[col],
{
    let per = layout.per_word();
    let bits = layout.bits as nat;
    assert(per >= 1 && per * layout.bits <= 32) by {
        lemma_fundamental_div_mod(32, layout.bits);
        lemma_div_is_ordered(layout.bits, 32, layout.bits);
        lemma_div_basics(layout.bits);
    }
    let w = col / per;
    let slot = col % per;
    lemma_fundamental_div_mod(col, per);
    lemma_div_pos_is_pos(col, per);
    assert((w + 1) * per == w * per + per) by (nonlinear_arith);
    let end = vstd::math::min((w + 1) * per, values.len() as int);
    let run = values.subrange(w * per, end);
    assert(run.len() * bits <= 32) by {
        lemma_mul_inequality(run.len() as int, per, layout.bits);
    }
    law_unpack_packed_word(run, bits, slot as nat);
    assert(values[col] <= u32::MAX) by {
        lemma2_to64();
        if bits < 32 {
            lemma_pow2_strictly_increases(bits, 32);
        }
    }
}

/// The reconstruction of a packed row: each element is what `affine` makes of
/// the value that was packed and of the scale and bias of its group.
pub proof fn law_reconstructs_packed_row<S, V, F: Fn(u32, S, S) -> V>(
    layout: Layout,
    affine: F,
    packed: Seq<u32>,
    scales: Seq<S>,
    biases: Seq<S>,
    out: Seq<V>,
    row: int,
    values: Seq<nat>,
    col: int,
)
    requires
        reconstructs(layout, affine, packed, scales, biases, out),
        0 < layout.bits <= 32,
        packs_row(layout, packed, row, values),
        values.len() == layout.in_features,
        0 <= row,
        0 <= col < layout.in_features,
        row * layout.in_features + col < out.len(),
    ensures
        affine.ensures(
            (
                values[col] as u32,
                scales[row * layout.n_groups + col / layout.group_size],
                biases[row * layout.n_groups + col / layout.group_size],
            ),
            out[row * layout.in_features + col],
        ),
{
    let i = row * layout.in_features + col;
    lemma_mul_nonnegative(row, layout.in_features);
    lemma_fundamental_div_mod_converse_div(i, layout.in_features, row, col);
    lemma_fundamental_div_mod_converse_mod(i, layout.in_features, row, col);
    law_unpack_packed_row(layout, packed, row, values, col);
    assert(affine.ensures(
        (
            layout.packed_value(packed, row, col),
            scales[layout.group_index(row, col)],
            biases[layout.group_index(row, col)],
        ),
        out[i],
    ));
}

/// An element of the reconstructed matrix is what `affine` makes of three
/// things: the element's bits of its word, counted from the least significant
/// end, `32 / bits` values to a word; and the scale and the bias of its run of
/// `group_size` columns.
pub proof fn law_reconstructed_element<S, V, F: Fn(u32, S, S) -> V>(
    packed_in: usize,
    in_features: usize,
    n_groups: usize,
    bits: usize,
    group_size: usize,
    affine: F,
    packed: Seq<u32>,
    scales: Seq<S>,
    biases: Seq<S>,
    out: Seq<V>,
    row: int,
    col: int,
)
    requires
        reconstructs(
            Layout::new(packed_in, in_features, n_groups, bits, group_size),
            affine,
            packed,
            scales,
            biases,
            out,
        ),
        0 < bits <= 32,
        0 <= row,
        0 <= col < in_features,
        row * in_features + col < out.len(),
    ensures
        ({
            let per = 32int / bits as int;
            let word = packed[row * packed_in + col / per] as nat;
            let q = (word / pow2(((col % per) * bits) as nat)) % pow2(bits as nat);
            let group = row * n_groups + col / group_size as int;
            affine.ensures(
                (q as u32, scales[group], biases[group]),
                out[row * in_features + col],
            )
        }),
{
    let layout = Layout::new(packed_in, in_features, n_groups, bits, group_size);
    let i = row * in_features + col;
    lemma_mul_nonnegative(row, in_features as int);
    lemma_fundamental_div_mod_converse_div(i, in_features as int, row, col);
    lemma_fundamental_div_mod_converse_mod(i, in_features as int, row, col);
    let per = 32int / bits as int;
    lemma_div_is_ordered(bits as int, 32, bits as int);
    lemma_div_basics(bits as int);
    lemma_mod_bound(col, per);
    let slot = (col % per) as nat;
    assert(slot * (bits as nat) == ((col % per) * bits) as nat) by {
        lemma_mul_nonnegative(col % per, bits as int);
    }
    assert(affine.ensures(
        (
            layout.packed_value(packed, row, col),
            scales[layout.group_index(row, col)],
            biases[layout.group_index(row, col)],
        ),
        out[i],
    ));
}

/// Words and scales are enough for a matrix where the last element's are there,
/// and the number of elements is a `usize`; for one without elements they
/// always are.
pub proof fn law_enough_for_last_element(
    packed_in: usize,
    in_features: usize,
    n_groups: usize,
    bits: usize,
    group_size: usize,
    rows: int,
    words: int,
    scales: int,
)
    ensures
        rows <= 0 || in_features == 0 ==> Layout::new(
            packed_in,
            in_features,
            n_groups,
            bits,
            group_size,
        ).reaches(rows, words, scales),
        rows * in_features <= usize::MAX && group_size > 0 && (rows - 1) * packed_in + (in_features
            - 1) / (32int / bits as int) < words && (rows - 1) * n_groups + (in_features - 1)
            / (group_size as int) < scales ==> Layout::new(
            packed_in,
            in_features,
            n_groups,
            bits,
            group_size,
        ).reaches(rows, words, scales),
{
}

} // verus!
