//! Loading of one file of a quantized checkpoint.
//!
//! A weight `p.weight` is quantized where `p.scales` stands beside it; the
//! biases `p.biases` may be missing. All other tensors are decoded as they
//! stand.

use vstd::prelude::*;
use vstd::string::*;

use crate::decode::tensor_from_view;
use crate::dequantize::dequantize_affine_tensor;
use crate::error::VoxtralError;
use crate::quantization::QuantizationConfig;
use crate::tensor::{Tensor, TensorView};
use crate::text::strip_suffix;
use crate::weight_map::WeightMap;

verus! {

/// A tensor of a file, with its name.
#[derive(Debug)]
pub struct NamedTensor<'a> {
    pub name: String,
    pub view: TensorView<'a>,
}

/// The names of some tensors, in their order.
pub open spec fn names(tensors: Seq<NamedTensor<'_>>) -> Seq<Seq<char>> {
    tensors.map_values(|t: NamedTensor<'_>| t.name@)
}

/// No name occurs twice, and every tensor is well-formed.
pub open spec fn shard_wf(tensors: Seq<NamedTensor<'_>>) -> bool {
    &&& names(tensors).no_duplicates()
    &&& forall|i: int| 0 <= i < tensors.len() ==> (#[trigger] tensors[i]).view@.wf()
}

/// Every tensor of a file is well-formed.
pub open spec fn tensors_wf(stored: Map<Seq<char>, crate::tensor::TensorInfo>) -> bool {
    forall|n: Seq<char>| #[trigger] stored.dom().contains(n) ==> stored[n].wf()
}

/// The tensors by name.
pub open spec fn stored(tensors: Seq<NamedTensor<'_>>) -> Map<
    Seq<char>,
    crate::tensor::TensorInfo,
> {
    Map::new(
        |n: Seq<char>| names(tensors).contains(n),
        |n: Seq<char>| tensors[names(tensors).index_of(n)].view@,
    )
}

/// The tensor under a name, where there is one.
pub open spec fn lookup(
    stored: Map<Seq<char>, crate::tensor::TensorInfo>,
    name: Seq<char>,
) -> Option<crate::tensor::TensorInfo> {
    if stored.dom().contains(name) {
        Some(stored[name])
    } else {
        None
    }
}

/// Whether a weight is stored with scales.
pub open spec fn quantized(
    stored: Map<Seq<char>, crate::tensor::TensorInfo>,
    prefix: Seq<char>,
) -> bool {
    stored.dom().contains(prefix + ".scales"@) && stored.dom().contains(prefix + ".weight"@)
}

/// Whether a name is that of a part of a quantized weight: `suffix` is
/// `.weight`, `.scales` or `.biases`.
pub open spec fn part_of_quantized(
    stored: Map<Seq<char>, crate::tensor::TensorInfo>,
    name: Seq<char>,
    suffix: Seq<char>,
) -> bool {
    crate::text::has_suffix(name, suffix) && quantized(stored, crate::text::stem(name, suffix))
}

/// Whether a tensor is used up in the reconstruction of a quantized weight.
pub open spec fn consumed(
    stored: Map<Seq<char>, crate::tensor::TensorInfo>,
    name: Seq<char>,
) -> bool {
    ||| part_of_quantized(stored, name, ".weight"@)
    ||| part_of_quantized(stored, name, ".scales"@)
    ||| part_of_quantized(stored, name, ".biases"@)
}

/// The error that a tensor gives rise to as scales.
pub open spec fn scales_error(
    stored: Map<Seq<char>, crate::tensor::TensorInfo>,
    path: Seq<char>,
    quantization: QuantizationConfig,
    name: Seq<char>,
) -> Option<crate::error::ErrorView> {
    let prefix = crate::text::stem(name, ".scales"@);
    if !crate::text::has_suffix(name, ".scales"@) {
        None
    } else if stored.dom().contains(prefix + ".weight"@) {
        crate::dequantize::dequantize_error(
            stored[prefix + ".weight"@],
            stored[name],
            lookup(stored, prefix + ".biases"@),
            quantization,
        )
    } else if stored.dom().contains(prefix + ".qweight"@) {
        Some(crate::error::qweight_error(prefix, path))
    } else {
        None
    }
}

/// The error that a tensor gives rise to when it is decoded as it stands.
pub open spec fn plain_error(
    stored: Map<Seq<char>, crate::tensor::TensorInfo>,
    name: Seq<char>,
) -> Option<crate::error::ErrorView> {
    if consumed(stored, name) {
        None
    } else {
        crate::decode::decode_error(stored[name])
    }
}

/// The first error along some names.
pub open spec fn first_error(
    names: Seq<Seq<char>>,
    error: spec_fn(Seq<char>) -> Option<crate::error::ErrorView>,
) -> Option<crate::error::ErrorView>
    decreases names.len(),
{
    if names.len() == 0 {
        None
    } else {
        match first_error(names.drop_last(), error) {
            Some(e) => Some(e),
            None => error(names.last()),
        }
    }
}

/// The error of a file whose tensors are visited in the order of `names`: the
/// scales are visited first, then whatever is decoded as it stands.
pub open spec fn shard_error(
    stored: Map<Seq<char>, crate::tensor::TensorInfo>,
    names: Seq<Seq<char>>,
    path: Seq<char>,
    quantization: QuantizationConfig,
) -> Option<crate::error::ErrorView> {
    match first_error(names, |n: Seq<char>| scales_error(stored, path, quantization, n)) {
        Some(e) => Some(e),
        None => first_error(names, |n: Seq<char>| plain_error(stored, n)),
    }
}

/// Whether a file gives a weight of the given name.
pub open spec fn yields(
    stored: Map<Seq<char>, crate::tensor::TensorInfo>,
    name: Seq<char>,
) -> bool {
    &&& stored.dom().contains(name)
    &&& part_of_quantized(stored, name, ".weight"@) || !consumed(stored, name)
}

/// `tensor` is the weight that a file gives under a name.
pub open spec fn yields_tensor<F: Fn(u32, u32, u32) -> u32>(
    stored: Map<Seq<char>, crate::tensor::TensorInfo>,
    quantization: QuantizationConfig,
    affine: F,
    name: Seq<char>,
    tensor: crate::tensor::TensorContents,
) -> bool {
    if part_of_quantized(stored, name, ".weight"@) {
        let prefix = crate::text::stem(name, ".weight"@);
        crate::dequantize::dequantizes(
            affine,
            stored[name],
            stored[prefix + ".scales"@],
            lookup(stored, prefix + ".biases"@),
            quantization,
            tensor,
        )
    } else {
        tensor == crate::decode::decoded(stored[name])
    }
}

/// `weights` are the weights that a file gives.
pub open spec fn yields_weights<F: Fn(u32, u32, u32) -> u32>(
    stored: Map<Seq<char>, crate::tensor::TensorInfo>,
    quantization: QuantizationConfig,
    affine: F,
    weights: Map<Seq<char>, Tensor>,
) -> bool {
    &&& weights.dom() == Set::new(|n: Seq<char>| yields(stored, n))
    &&& forall|n: Seq<char>|
        weights.dom().contains(n) ==> yields_tensor(
            stored,
            quantization,
            affine,
            n,
            (#[trigger] weights[n])@,
        )
}

/// The sizes of all quantized weights of a file can be computed.
pub open spec fn shard_computable(
    stored: Map<Seq<char>, crate::tensor::TensorInfo>,
    quantization: QuantizationConfig,
) -> bool {
    forall|prefix: Seq<char>| #[trigger]
        quantized(stored, prefix) ==> crate::dequantize::sizes_computable(
            stored[prefix + ".weight"@],
            stored[prefix + ".scales"@],
            quantization,
        )
}

proof fn lemma_stored_at(tensors: Seq<NamedTensor<'_>>, i: int)
    requires
        names(tensors).no_duplicates(),
        0 <= i < tensors.len(),
    ensures
        stored(tensors).dom().contains(tensors[i].name@),
        stored(tensors)[tensors[i].name@] == tensors[i].view@,
{
    let ns = names(tensors);
    assert(ns[ns.index_of(ns[i])] == ns[i]);
}

proof fn lemma_stem_append(prefix: Seq<char>, suffix: Seq<char>)
    ensures
        crate::text::has_suffix(prefix + suffix, suffix),
        crate::text::stem(prefix + suffix, suffix) == prefix,
{
    assert(crate::text::stem(prefix + suffix, suffix) =~= prefix);
}

proof fn lemma_append_stem(name: Seq<char>, suffix: Seq<char>)
    requires
        crate::text::has_suffix(name, suffix),
    ensures
        crate::text::stem(name, suffix) + suffix == name,
{
}

fn joined(prefix: &str, suffix: &str) -> (r: String)
    ensures
        r@ == prefix@ + suffix@,
{
    let mut s = prefix.to_owned();
    s.append(suffix);
    s
}

fn find(tensors: &Vec<NamedTensor<'_>>, name: &String) -> (r: Option<usize>)
    ensures
        match r {
            Some(i) => i < tensors@.len() && tensors@[i as int].name@ == name@,
            None => !stored(tensors@).dom().contains(name@),
        },
{
    for i in 0..tensors.len()
        invariant
            forall|j: int| 0 <= j < i ==> (#[trigger] names(tensors@)[j]) != name@,
    {
        if tensors[i].name == *name {
            return Some(i);
        }
    }
    None
}

fn is_part_of_quantized(tensors: &Vec<NamedTensor<'_>>, name: &String, suffix: &str) -> (r: bool)
    requires
        names(tensors@).no_duplicates(),
    ensures
        r == part_of_quantized(stored(tensors@), name@, suffix@),
{
    match strip_suffix(name.as_str(), suffix) {
        Some(prefix) => {
            let scales = find(tensors, &joined(prefix, ".scales"));
            let weight = find(tensors, &joined(prefix, ".weight"));
            proof {
                if scales is Some {
                    lemma_stored_at(tensors@, scales->0 as int);
                }
                if weight is Some {
                    lemma_stored_at(tensors@, weight->0 as int);
                }
            }
            scales.is_some() && weight.is_some()
        },
        None => false,
    }
}

fn is_consumed(tensors: &Vec<NamedTensor<'_>>, name: &String) -> (r: bool)
    requires
        names(tensors@).no_duplicates(),
    ensures
        r == consumed(stored(tensors@), name@),
{
    is_part_of_quantized(tensors, name, ".weight") || is_part_of_quantized(
        tensors,
        name,
        ".scales",
    ) || is_part_of_quantized(tensors, name, ".biases")
}

/// Tells whether the sizes of all quantized weights of a file can be computed.
pub fn is_shard_computable(
    tensors: &Vec<NamedTensor<'_>>,
    quantization: &QuantizationConfig,
) -> (r: bool)
    requires
        shard_wf(tensors@),
    ensures
        r == shard_computable(stored(tensors@), *quantization),
{
    let ghost all = stored(tensors@);
    for i in 0..tensors.len()
        invariant
            shard_wf(tensors@),
            all == stored(tensors@),
            forall|prefix: Seq<char>, j: int|
                0 <= j < i && (#[trigger] names(tensors@)[j]) == prefix + ".scales"@
                    && #[trigger] quantized(all, prefix)
                    ==> crate::dequantize::sizes_computable(
                    all[prefix + ".weight"@],
                    all[prefix + ".scales"@],
                    *quantization,
                ),
    {
        proof {
            lemma_stored_at(tensors@, i as int);
            assert forall|prefix: Seq<char>|
                names(tensors@)[i as int] == prefix + ".scales"@ implies crate::text::has_suffix(
                tensors@[i as int].name@,
                ".scales"@,
            ) && crate::text::stem(tensors@[i as int].name@, ".scales"@) == prefix by {
                lemma_stem_append(prefix, ".scales"@);
            }
        }
        match strip_suffix(tensors[i].name.as_str(), ".scales") {
            Some(prefix) => {
                proof {
                    lemma_append_stem(tensors@[i as int].name@, ".scales"@);
                }
                match find(tensors, &joined(prefix, ".weight")) {
                    Some(w) => {
                        proof {
                            lemma_stored_at(tensors@, w as int);
                            assert(quantized(all, prefix@));
                        }
                        if tensors[w].view.shape.len() == 2 && tensors[i].view.shape.len() == 2 {
                            if quantization.bits == 0 || quantization.bits > 32 {
                                return false;
                            }
                            match tensors[i].view.shape[1].checked_mul(quantization.group_size) {
                                Some(_) => {},
                                None => {
                                    return false;
                                },
                            }
                        }
                    },
                    None => {},
                }
            },
            None => {},
        }
    }
    proof {
        assert forall|prefix: Seq<char>| #[trigger]
            quantized(all, prefix) implies crate::dequantize::sizes_computable(
            all[prefix + ".weight"@],
            all[prefix + ".scales"@],
            *quantization,
        ) by {
            let j = names(tensors@).index_of(prefix + ".scales"@);
            assert(names(tensors@)[j] == prefix + ".scales"@);
        }
    }
    true
}

proof fn lemma_first_error_extends(
    names: Seq<Seq<char>>,
    error: spec_fn(Seq<char>) -> Option<crate::error::ErrorView>,
    k: int,
)
    requires
        0 <= k <= names.len(),
        first_error(names.take(k), error) is Some,
    ensures
        first_error(names, error) == first_error(names.take(k), error),
    decreases names.len(),
{
    if k == names.len() {
        assert(names.take(k) =~= names);
    } else {
        let front = names.drop_last();
        assert(front.take(k) =~= names.take(k));
        lemma_first_error_extends(front, error, k);
    }
}

proof fn lemma_take_contains(names: Seq<Seq<char>>, i: int)
    requires
        0 <= i < names.len(),
    ensures
        forall|m: Seq<char>| #[trigger]
            names.take(i + 1).contains(m) <==> names.take(i).contains(m) || m == names[i],
{
    let longer = names.take(i + 1);
    let shorter = names.take(i);
    assert forall|m: Seq<char>| #[trigger] longer.contains(m) <==> shorter.contains(m) || m
        == names[i] by {
        if shorter.contains(m) {
            assert(longer[shorter.index_of(m)] == m);
        }
        if m == names[i] {
            assert(longer[i] == m);
        }
        if longer.contains(m) && m != names[i] {
            assert(shorter[longer.index_of(m)] == m);
        }
    }
}

/// The first pass over a file: reconstructs its quantized weights.
fn load_scaled_weights<F: Fn(u32, u32, u32) -> u32>(
    path: &str,
    tensors: &Vec<NamedTensor<'_>>,
    quantization: &QuantizationConfig,
    affine: &F,
) -> (r: Result<WeightMap<Tensor>, VoxtralError>)
    requires
        shard_wf(tensors@),
        shard_computable(stored(tensors@), *quantization),
        forall|q: u32, s: u32, b: u32| #[trigger] affine.requires((q, s, b)),
    ensures
        ({
            let all = stored(tensors@);
            let error = first_error(
                names(tensors@),
                |n: Seq<char>| scales_error(all, path@, *quantization, n),
            );
            match r {
                Ok(weights) => {
                    &&& error is None
                    &&& forall|n: Seq<char>| #[trigger]
                        weights@.dom().contains(n) <==> part_of_quantized(all, n, ".weight"@)
                    &&& forall|n: Seq<char>|
                        weights@.dom().contains(n) ==> yields_tensor(
                            all,
                            *quantization,
                            *affine,
                            n,
                            (#[trigger] weights@[n])@,
                        )
                },
                Err(e) => error == Some(e@),
            }
        }),
{
    let ghost all = stored(tensors@);
    let ghost ns = names(tensors@);
    let ghost as_scales = |n: Seq<char>| scales_error(all, path@, *quantization, n);
    let mut weights: WeightMap<Tensor> = WeightMap::new();
    for i in 0..tensors.len()
        invariant
            shard_wf(tensors@),
            shard_computable(all, *quantization),
            forall|q: u32, s: u32, b: u32| #[trigger] affine.requires((q, s, b)),
            all == stored(tensors@),
            ns == names(tensors@),
            as_scales == (|n: Seq<char>| scales_error(all, path@, *quantization, n)),
            first_error(ns.take(i as int), as_scales) is None,
            forall|n: Seq<char>| #[trigger]
                weights@.dom().contains(n) <==> part_of_quantized(all, n, ".weight"@) && ns.take(
                    i as int,
                ).contains(crate::text::stem(n, ".weight"@) + ".scales"@),
            forall|n: Seq<char>|
                weights@.dom().contains(n) ==> yields_tensor(
                    all,
                    *quantization,
                    *affine,
                    n,
                    (#[trigger] weights@[n])@,
                ),
    {
        let ghost name = tensors@[i as int].name@;
        let ghost seen = ns.take(i as int);
        let ghost before = weights@;
        proof {
            lemma_stored_at(tensors@, i as int);
            assert(ns.take(i + 1).drop_last() =~= seen);
            lemma_take_contains(ns, i as int);
        }
        match strip_suffix(tensors[i].name.as_str(), ".scales") {
            Some(prefix) => {
                let weight_name = joined(prefix, ".weight");
                proof {
                    lemma_append_stem(name, ".scales"@);
                    lemma_stem_append(prefix@, ".weight"@);
                }
                match find(tensors, &weight_name) {
                    Some(w) => {
                        let found = find(tensors, &joined(prefix, ".biases"));
                        let biases = match found {
                            Some(b) => Some(&tensors[b].view),
                            None => None,
                        };
                        proof {
                            lemma_stored_at(tensors@, w as int);
                            if found is Some {
                                lemma_stored_at(tensors@, found->0 as int);
                            }
                            assert(quantized(all, prefix@));
                        }
                        let outcome = dequantize_affine_tensor(
                            &tensors[w].view,
                            &tensors[i].view,
                            biases,
                            quantization,
                            affine,
                        );
                        match outcome {
                            Ok(tensor) => {
                                weights.insert(weight_name, tensor);
                            },
                            Err(e) => {
                                proof {
                                    lemma_first_error_extends(ns, as_scales, i + 1);
                                }
                                return Err(e);
                            },
                        }
                    },
                    None => {
                        let qweight = find(tensors, &joined(prefix, ".qweight"));
                        proof {
                            if qweight is Some {
                                lemma_stored_at(tensors@, qweight->0 as int);
                            }
                        }
                        if qweight.is_some() {
                            let e = VoxtralError::qweight(prefix, path);
                            proof {
                                lemma_first_error_extends(ns, as_scales, i + 1);
                            }
                            return Err(e);
                        }
                    },
                }
            },
            None => {},
        }
        proof {
            assert forall|n: Seq<char>| #[trigger]
                weights@.dom().contains(n) <==> part_of_quantized(all, n, ".weight"@) && ns.take(
                    i + 1,
                ).contains(crate::text::stem(n, ".weight"@) + ".scales"@) by {
                assert(before.dom().contains(n) <==> part_of_quantized(all, n, ".weight"@)
                    && seen.contains(crate::text::stem(n, ".weight"@) + ".scales"@));
                if part_of_quantized(all, n, ".weight"@) && crate::text::stem(n, ".weight"@)
                    + ".scales"@ == name {
                    lemma_stem_append(crate::text::stem(n, ".weight"@), ".scales"@);
                    lemma_append_stem(n, ".weight"@);
                }
            }
        }
    }
    assert(ns.take(ns.len() as int) =~= ns);
    Ok(weights)
}

/// Loads the weights of one file of a quantized checkpoint.
///
/// The tensors are visited in the order in which they are given; `path` is
/// for messages.
pub fn load_quantized_shard<F: Fn(u32, u32, u32) -> u32>(
    path: &str,
    tensors: &Vec<NamedTensor<'_>>,
    quantization: &QuantizationConfig,
    affine: &F,
) -> (r: Result<WeightMap<Tensor>, VoxtralError>)
    requires
        shard_wf(tensors@),
        shard_computable(stored(tensors@), *quantization),
        forall|q: u32, s: u32, b: u32| #[trigger] affine.requires((q, s, b)),
    ensures
        ({
            let error = shard_error(stored(tensors@), names(tensors@), path@, *quantization);
            match r {
                Ok(weights) => {
                    &&& error is None
                    &&& yields_weights(stored(tensors@), *quantization, *affine, weights@)
                },
                Err(e) => error == Some(e@),
            }
        }),
{
    let ghost all = stored(tensors@);
    let ghost ns = names(tensors@);
    let ghost as_plain = |n: Seq<char>| plain_error(all, n);
    let mut weights = load_scaled_weights(path, tensors, quantization, affine)?;
    for i in 0..tensors.len()
        invariant
            shard_wf(tensors@),
            all == stored(tensors@),
            ns == names(tensors@),
            as_plain == (|n: Seq<char>| plain_error(all, n)),
            first_error(ns.take(i as int), as_plain) is None,
            forall|n: Seq<char>| #[trigger]
                weights@.dom().contains(n) <==> part_of_quantized(all, n, ".weight"@) || ns.take(
                    i as int,
                ).contains(n) && !consumed(all, n),
            forall|n: Seq<char>|
                weights@.dom().contains(n) ==> yields_tensor(
                    all,
                    *quantization,
                    *affine,
                    n,
                    (#[trigger] weights@[n])@,
                ),
            first_error(ns, |n: Seq<char>| scales_error(all, path@, *quantization, n)) is None,
    {
        proof {
            lemma_stored_at(tensors@, i as int);
            assert(ns.take(i + 1).drop_last() =~= ns.take(i as int));
            lemma_take_contains(ns, i as int);
        }
        if !is_consumed(tensors, &tensors[i].name) {
            match tensor_from_view(&tensors[i].view) {
                Ok(tensor) => {
                    weights.insert(tensors[i].name.clone(), tensor);
                },
                Err(e) => {
                    proof {
                        lemma_first_error_extends(ns, as_plain, i + 1);
                    }
                    return Err(e);
                },
            }
        }
    }
    proof {
        assert(ns.take(ns.len() as int) =~= ns);
        assert forall|n: Seq<char>| weights@.dom().contains(n) <==> yields(all, n) by {
            if part_of_quantized(all, n, ".weight"@) {
                lemma_append_stem(n, ".weight"@);
            }
        }
        assert(weights@.dom() =~= Set::new(|n: Seq<char>| yields(all, n)));
    }
    Ok(weights)
}

/// Two maps hold the same weights: the same names, and tensors of the same
/// contents.
pub open spec fn same_weights(a: Map<Seq<char>, Tensor>, b: Map<Seq<char>, Tensor>) -> bool {
    &&& a.dom() == b.dom()
    &&& forall|n: Seq<char>| a.dom().contains(n) ==> (#[trigger] a[n])@ == b[n]@
}

/// The tensors of a file fix the weights that it gives, whatever the order in
/// which they are visited, as far as `affine` fixes its results.
pub proof fn law_weights_fixed<F: Fn(u32, u32, u32) -> u32>(
    stored: Map<Seq<char>, crate::tensor::TensorInfo>,
    quantization: QuantizationConfig,
    affine: F,
    a: Map<Seq<char>, Tensor>,
    b: Map<Seq<char>, Tensor>,
)
    requires
        yields_weights(stored, quantization, affine, a),
        yields_weights(stored, quantization, affine, b),
        forall|args: (u32, u32, u32), x: u32, y: u32| #[trigger]
            affine.ensures(args, x) && #[trigger] affine.ensures(args, y) ==> x == y,
    ensures
        same_weights(a, b),
{
    assert forall|n: Seq<char>| a.dom().contains(n) implies (#[trigger] a[n])@ == b[n]@ by {
        if part_of_quantized(stored, n, ".weight"@) {
            let prefix = crate::text::stem(n, ".weight"@);
            crate::dequantize::law_dequantized_fixed(
                affine,
                stored[n],
                stored[prefix + ".scales"@],
                lookup(stored, prefix + ".biases"@),
                quantization,
                a[n]@,
                b[n]@,
            );
        }
    }
}

proof fn lemma_suffixes_differ(name: Seq<char>)
    ensures
        crate::text::has_suffix(name, ".weight"@) ==> !crate::text::has_suffix(name, ".scales"@),
        crate::text::has_suffix(name, ".weight"@) ==> !crate::text::has_suffix(name, ".biases"@),
        crate::text::has_suffix(name, ".scales"@) ==> !crate::text::has_suffix(name, ".biases"@),
{
    reveal_strlit(".weight");
    reveal_strlit(".scales");
    reveal_strlit(".biases");
    assert(".weight"@[6] != ".scales"@[6] && ".weight"@[6] != ".biases"@[6]);
    assert(".scales"@[1] != ".biases"@[1]);
}

/// Of the parts of a quantized weight the weight alone is among the weights
/// that a file gives.
pub proof fn law_quantized_parts_merge(
    stored: Map<Seq<char>, crate::tensor::TensorInfo>,
    prefix: Seq<char>,
)
    requires
        quantized(stored, prefix),
    ensures
        yields(stored, prefix + ".weight"@),
        !yields(stored, prefix + ".scales"@),
        !yields(stored, prefix + ".biases"@),
{
    lemma_stem_append(prefix, ".weight"@);
    lemma_stem_append(prefix, ".scales"@);
    lemma_stem_append(prefix, ".biases"@);
    lemma_suffixes_differ(prefix + ".scales"@);
    lemma_suffixes_differ(prefix + ".biases"@);
}

/// Where scales have no weight beside them, or a weight no scales, each tensor
/// of that name is given as it is decoded.
pub proof fn law_unpaired_parts_pass(
    stored: Map<Seq<char>, crate::tensor::TensorInfo>,
    prefix: Seq<char>,
)
    requires
        !quantized(stored, prefix),
    ensures
        forall|suffix: Seq<char>| #[trigger]
            stored.dom().contains(prefix + suffix) && (suffix == ".weight"@ || suffix == ".scales"@
                || suffix == ".biases"@) ==> yields(stored, prefix + suffix) && !consumed(
                stored,
                prefix + suffix,
            ),
{
    lemma_stem_append(prefix, ".weight"@);
    lemma_stem_append(prefix, ".scales"@);
    lemma_stem_append(prefix, ".biases"@);
    lemma_suffixes_differ(prefix + ".weight"@);
    lemma_suffixes_differ(prefix + ".scales"@);
    lemma_suffixes_differ(prefix + ".biases"@);
}

/// Where a file holds no scales, it gives all its tensors, each decoded as it
/// stands.
pub proof fn law_without_scales<F: Fn(u32, u32, u32) -> u32>(
    stored: Map<Seq<char>, crate::tensor::TensorInfo>,
    quantization: QuantizationConfig,
    affine: F,
    weights: Map<Seq<char>, Tensor>,
    name: Seq<char>,
)
    requires
        yields_weights(stored, quantization, affine, weights),
        forall|n: Seq<char>| #[trigger]
            stored.dom().contains(n) ==> !crate::text::has_suffix(n, ".scales"@),
    ensures
        weights.dom().contains(name) <==> stored.dom().contains(name),
        weights.dom().contains(name) ==> weights[name]@ == crate::decode::decoded(stored[name]),
{
    assert forall|prefix: Seq<char>| !quantized(stored, prefix) by {
        lemma_stem_append(prefix, ".scales"@);
    }
}

/// Tensors are found by their names: under each name the tensor that has it,
/// and under no other name any.
pub proof fn law_stored_by_name(tensors: Seq<NamedTensor<'_>>, name: Seq<char>)
    requires
        forall|i: int, j: int|
            0 <= i < j < tensors.len() ==> (#[trigger] tensors[i]).name@ != (
            #[trigger] tensors[j]).name@,
    ensures
        stored(tensors).dom().contains(name) <==> exists|i: int|
            0 <= i < tensors.len() && (#[trigger] tensors[i]).name@ == name,
        forall|i: int|
            0 <= i < tensors.len() && (#[trigger] tensors[i]).name@ == name ==> stored(
                tensors,
            )[name] == tensors[i].view@,
        names(tensors).len() == tensors.len(),
        forall|i: int|
            0 <= i < tensors.len() ==> #[trigger] names(tensors)[i] == tensors[i].name@,
{
    let ns = names(tensors);
    assert(ns.no_duplicates());
    assert forall|i: int|
        0 <= i < tensors.len() && (#[trigger] tensors[i]).name@ == name implies stored(
        tensors,
    ).dom().contains(name) && stored(tensors)[name] == tensors[i].view@ by {
        lemma_stored_at(tensors, i);
    }
    if stored(tensors).dom().contains(name) {
        assert(tensors[ns.index_of(name)].name@ == name);
    }
}

/// Whether a file gives a weight under a name: it holds a tensor of that name,
/// and the tensor is neither the scales of a weight of the file, nor the biases
/// of one that has scales.
pub open spec fn gives(
    stored: Map<Seq<char>, crate::tensor::TensorInfo>,
    name: Seq<char>,
) -> bool {
    &&& stored.dom().contains(name)
    &&& forall|p: Seq<char>| #[trigger]
        stored.dom().contains(p + ".weight"@) ==> name != p + ".scales"@
    &&& forall|p: Seq<char>| #[trigger]
        stored.dom().contains(p + ".weight"@) && stored.dom().contains(p + ".scales"@) ==> name != p
            + ".biases"@
}

proof fn lemma_part_is(
    stored: Map<Seq<char>, crate::tensor::TensorInfo>,
    name: Seq<char>,
    suffix: Seq<char>,
)
    ensures
        part_of_quantized(stored, name, suffix) <==> exists|p: Seq<char>|
            name == #[trigger] (p + suffix) && quantized(stored, p),
{
    if part_of_quantized(stored, name, suffix) {
        lemma_append_stem(name, suffix);
    }
    if exists|p: Seq<char>| name == #[trigger] (p + suffix) && quantized(stored, p) {
        let p = choose|p: Seq<char>| name == #[trigger] (p + suffix) && quantized(stored, p);
        lemma_stem_append(p, suffix);
    }
}

/// The weights of a file stand under the names that it gives, and under no
/// others.
pub proof fn law_given_names<F: Fn(u32, u32, u32) -> u32>(
    stored: Map<Seq<char>, crate::tensor::TensorInfo>,
    quantization: QuantizationConfig,
    affine: F,
    weights: Map<Seq<char>, Tensor>,
    name: Seq<char>,
)
    requires
        yields_weights(stored, quantization, affine, weights),
    ensures
        weights.dom().contains(name) <==> gives(stored, name),
{
    lemma_part_is(stored, name, ".weight"@);
    lemma_part_is(stored, name, ".scales"@);
    lemma_part_is(stored, name, ".biases"@);
    lemma_suffixes_differ(name);
    assert(weights.dom().contains(name) <==> yields(stored, name));
    if part_of_quantized(stored, name, ".weight"@) {
        assert forall|p: Seq<char>| name != #[trigger] (p + ".scales"@) by {
            lemma_stem_append(p, ".scales"@);
        }
        assert forall|p: Seq<char>| name != #[trigger] (p + ".biases"@) by {
            lemma_stem_append(p, ".biases"@);
        }
    }
    if gives(stored, name) {
        assert forall|p: Seq<char>| #[trigger] quantized(stored, p) implies name != p + ".scales"@
            && name != p + ".biases"@ by {
            assert(stored.dom().contains(p + ".weight"@));
        }
    } else if stored.dom().contains(name) && !part_of_quantized(stored, name, ".weight"@) {
        if exists|p: Seq<char>| #[trigger]
            stored.dom().contains(p + ".weight"@) && name == p + ".scales"@ {
            let p = choose|p: Seq<char>| #[trigger]
                stored.dom().contains(p + ".weight"@) && name == p + ".scales"@;
            assert(quantized(stored, p));
            assert(name == p + ".scales"@);
        } else {
            let p = choose|p: Seq<char>| #[trigger]
                stored.dom().contains(p + ".weight"@) && stored.dom().contains(p + ".scales"@)
                    && name == p + ".biases"@;
            assert(quantized(stored, p));
            assert(name == p + ".biases"@);
        }
    }
}

/// Every tensor whose name ends in neither `.scales` nor `.biases` is among the
/// weights of its file under its own name; and one whose name does not end in
/// `.weight` either is given exactly as it is decoded.
pub proof fn law_other_tensors_pass<F: Fn(u32, u32, u32) -> u32>(
    stored: Map<Seq<char>, crate::tensor::TensorInfo>,
    quantization: QuantizationConfig,
    affine: F,
    weights: Map<Seq<char>, Tensor>,
    name: Seq<char>,
)
    requires
        yields_weights(stored, quantization, affine, weights),
        stored.dom().contains(name),
        forall|p: Seq<char>| #[trigger] (p + ".scales"@) != name,
        forall|p: Seq<char>| #[trigger] (p + ".biases"@) != name,
    ensures
        weights.dom().contains(name),
        (forall|p: Seq<char>| #[trigger] (p + ".weight"@) != name) ==> weights[name]@
            == crate::decode::decoded(stored[name]),
{
    law_given_names(stored, quantization, affine, weights, name);
    lemma_part_is(stored, name, ".weight"@);
    assert(yields_tensor(stored, quantization, affine, name, weights[name]@));
}

/// A weight that has scales is reconstructed from them, and from its biases
/// where it has any.
pub proof fn law_scaled_weight_reconstructed<F: Fn(u32, u32, u32) -> u32>(
    stored: Map<Seq<char>, crate::tensor::TensorInfo>,
    quantization: QuantizationConfig,
    affine: F,
    weights: Map<Seq<char>, Tensor>,
    p: Seq<char>,
)
    requires
        yields_weights(stored, quantization, affine, weights),
        stored.dom().contains(p + ".weight"@),
        stored.dom().contains(p + ".scales"@),
    ensures
        weights.dom().contains(p + ".weight"@),
        stored.dom().contains(p + ".biases"@) ==> crate::dequantize::dequantizes(
            affine,
            stored[p + ".weight"@],
            stored[p + ".scales"@],
            Some(stored[p + ".biases"@]),
            quantization,
            weights[p + ".weight"@]@,
        ),
        !stored.dom().contains(p + ".biases"@) ==> crate::dequantize::dequantizes(
            affine,
            stored[p + ".weight"@],
            stored[p + ".scales"@],
            None,
            quantization,
            weights[p + ".weight"@]@,
        ),
{
    let name = p + ".weight"@;
    lemma_stem_append(p, ".weight"@);
    assert(quantized(stored, p));
    assert(weights.dom().contains(name) <==> yields(stored, name));
    assert(yields_tensor(stored, quantization, affine, name, weights[name]@));
}

/// A tensor whose name ends like a part of a quantized weight is given as it is
/// decoded where the weight is not quantized.
pub proof fn law_unscaled_parts_decoded<F: Fn(u32, u32, u32) -> u32>(
    stored: Map<Seq<char>, crate::tensor::TensorInfo>,
    quantization: QuantizationConfig,
    affine: F,
    weights: Map<Seq<char>, Tensor>,
    p: Seq<char>,
)
    requires
        yields_weights(stored, quantization, affine, weights),
        !(stored.dom().contains(p + ".weight"@) && stored.dom().contains(p + ".scales"@)),
    ensures
        stored.dom().contains(p + ".weight"@) ==> weights.dom().contains(p + ".weight"@) && weights[p
            + ".weight"@]@ == crate::decode::decoded(stored[p + ".weight"@]),
        stored.dom().contains(p + ".scales"@) ==> weights.dom().contains(p + ".scales"@) && weights[p
            + ".scales"@]@ == crate::decode::decoded(stored[p + ".scales"@]),
        stored.dom().contains(p + ".biases"@) ==> weights.dom().contains(p + ".biases"@) && weights[p
            + ".biases"@]@ == crate::decode::decoded(stored[p + ".biases"@]),
{
    law_unpaired_parts_pass(stored, p);
    assert(!quantized(stored, p));
    let w = p + ".weight"@;
    let s = p + ".scales"@;
    let b = p + ".biases"@;
    assert(weights.dom().contains(w) <==> yields(stored, w));
    assert(weights.dom().contains(s) <==> yields(stored, s));
    assert(weights.dom().contains(b) <==> yields(stored, b));
    if stored.dom().contains(w) {
        assert(yields_tensor(stored, quantization, affine, w, weights[w]@));
    }
    if stored.dom().contains(s) {
        assert(yields_tensor(stored, quantization, affine, s, weights[s]@));
    }
    if stored.dom().contains(b) {
        assert(yields_tensor(stored, quantization, affine, b, weights[b]@));
    }
}

/// What scales give rise to: the error of their weight, where it stands beside
/// them; an error, where a `.qweight` tensor stands there instead; and nothing
/// otherwise. A name that is not that of scales gives rise to nothing.
pub proof fn law_scales_errors(
    stored: Map<Seq<char>, crate::tensor::TensorInfo>,
    path: Seq<char>,
    quantization: QuantizationConfig,
    p: Seq<char>,
    name: Seq<char>,
)
    ensures
        ({
            let error = scales_error(stored, path, quantization, p + ".scales"@);
            let biases = if stored.dom().contains(p + ".biases"@) {
                Some(stored[p + ".biases"@])
            } else {
                None
            };
            let has_weight = stored.dom().contains(p + ".weight"@);
            let has_qweight = stored.dom().contains(p + ".qweight"@);
            &&& has_weight ==> error == crate::dequantize::dequantize_error(
                stored[p + ".weight"@],
                stored[p + ".scales"@],
                biases,
                quantization,
            )
            &&& !has_weight && has_qweight ==> error == Some(
                crate::error::qweight_error(p, path),
            )
            &&& !has_weight && !has_qweight ==> error is None
        }),
        (forall|x: Seq<char>| #[trigger] (x + ".scales"@) != name) ==> scales_error(
            stored,
            path,
            quantization,
            name,
        ) is None,
{
    lemma_stem_append(p, ".scales"@);
    if crate::text::has_suffix(name, ".scales"@) {
        lemma_append_stem(name, ".scales"@);
    }
}

/// A tensor that is given as it is decoded has the errors of its decoding; a
/// part of a quantized weight has none of these.
pub proof fn law_plain_errors(
    stored: Map<Seq<char>, crate::tensor::TensorInfo>,
    name: Seq<char>,
    p: Seq<char>,
)
    ensures
        (forall|x: Seq<char>| #[trigger]
            stored.dom().contains(x + ".weight"@) && stored.dom().contains(x + ".scales"@) ==> name
                != x + ".weight"@ && name != x + ".scales"@ && name != x + ".biases"@)
            ==> plain_error(stored, name) == crate::decode::decode_error(stored[name]),
        stored.dom().contains(p + ".weight"@) && stored.dom().contains(p + ".scales"@) ==> {
            &&& plain_error(stored, p + ".weight"@) is None
            &&& plain_error(stored, p + ".scales"@) is None
            &&& plain_error(stored, p + ".biases"@) is None
        },
{
    lemma_part_is(stored, name, ".weight"@);
    lemma_part_is(stored, name, ".scales"@);
    lemma_part_is(stored, name, ".biases"@);
    lemma_stem_append(p, ".weight"@);
    lemma_stem_append(p, ".scales"@);
    lemma_stem_append(p, ".biases"@);
    if forall|x: Seq<char>| #[trigger]
        stored.dom().contains(x + ".weight"@) && stored.dom().contains(x + ".scales"@) ==> name != x
            + ".weight"@ && name != x + ".scales"@ && name != x + ".biases"@ {
        assert forall|x: Seq<char>| #[trigger] quantized(stored, x) implies name != x + ".weight"@
            && name != x + ".scales"@ && name != x + ".biases"@ by {
            assert(stored.dom().contains(x + ".weight"@));
        }
    }
}

proof fn lemma_first_error_at(
    names: Seq<Seq<char>>,
    error: spec_fn(Seq<char>) -> Option<crate::error::ErrorView>,
    i: int,
)
    requires
        0 <= i < names.len(),
        forall|j: int| 0 <= j < i ==> error(#[trigger] names[j]) is None,
        error(names[i]) is Some,
    ensures
        first_error(names, error) == error(names[i]),
    decreases names.len(),
{
    let front = names.drop_last();
    if i < front.len() {
        assert(front[i] == names[i]);
        lemma_first_error_at(front, error, i);
    } else {
        lemma_first_error_none(front, error);
    }
}

proof fn lemma_first_error_none(
    names: Seq<Seq<char>>,
    error: spec_fn(Seq<char>) -> Option<crate::error::ErrorView>,
)
    requires
        forall|j: int| 0 <= j < names.len() ==> error(#[trigger] names[j]) is None,
    ensures
        first_error(names, error) is None,
    decreases names.len(),
{
    if names.len() > 0 {
        lemma_first_error_none(names.drop_last(), error);
        assert(error(names[names.len() - 1]) is None);
    }
}

/// The error of a file is that of the first scales in the order of visit that
/// give rise to one; where none do, that of the first tensor that cannot be
/// decoded; and there is none where there is neither.
pub proof fn law_first_fault_counts(
    stored: Map<Seq<char>, crate::tensor::TensorInfo>,
    order: Seq<Seq<char>>,
    path: Seq<char>,
    quantization: QuantizationConfig,
    i: int,
)
    requires
        0 <= i <= order.len(),
    ensures
        ({
            let error = shard_error(stored, order, path, quantization);
            let no_scales = forall|j: int|
                0 <= j < order.len() ==> scales_error(
                    stored,
                    path,
                    quantization,
                    #[trigger] order[j],
                ) is None;
            &&& i < order.len() && scales_error(stored, path, quantization, order[i]) is Some && (
            forall|j: int|
                0 <= j < i ==> scales_error(
                    stored,
                    path,
                    quantization,
                    #[trigger] order[j],
                ) is None) ==> error == scales_error(stored, path, quantization, order[i])
            &&& no_scales && i < order.len() && plain_error(stored, order[i]) is Some && (forall|
                j: int,
            |
                0 <= j < i ==> plain_error(stored, #[trigger] order[j]) is None) ==> error
                == plain_error(stored, order[i])
            &&& no_scales && (forall|j: int|
                0 <= j < order.len() ==> plain_error(stored, #[trigger] order[j]) is None)
                ==> error is None
        }),
{
    let as_scales = |n: Seq<char>| scales_error(stored, path, quantization, n);
    let as_plain = |n: Seq<char>| plain_error(stored, n);
    if i < order.len() && as_scales(order[i]) is Some && (forall|j: int|
        0 <= j < i ==> scales_error(stored, path, quantization, #[trigger] order[j]) is None) {
        lemma_first_error_at(order, as_scales, i);
    }
    if forall|j: int|
        0 <= j < order.len() ==> scales_error(
            stored,
            path,
            quantization,
            #[trigger] order[j],
        ) is None {
        lemma_first_error_none(order, as_scales);
        if i < order.len() && as_plain(order[i]) is Some && (forall|j: int|
            0 <= j < i ==> plain_error(stored, #[trigger] order[j]) is None) {
            lemma_first_error_at(order, as_plain, i);
        }
        if forall|j: int|
            0 <= j < order.len() ==> plain_error(stored, #[trigger] order[j]) is None {
            lemma_first_error_none(order, as_plain);
        }
    }
}

/// The sizes of a file can be computed exactly where those of each weight that
/// has scales can.
pub proof fn law_shard_computable(
    stored: Map<Seq<char>, crate::tensor::TensorInfo>,
    quantization: QuantizationConfig,
)
    ensures
        shard_computable(stored, quantization) <==> forall|p: Seq<char>| #[trigger]
            stored.dom().contains(p + ".weight"@) && stored.dom().contains(p + ".scales"@)
                ==> crate::dequantize::sizes_computable(
                stored[p + ".weight"@],
                stored[p + ".scales"@],
                quantization,
            ),
{
    if shard_computable(stored, quantization) {
        assert forall|p: Seq<char>| #[trigger]
            stored.dom().contains(p + ".weight"@) && stored.dom().contains(
                p + ".scales"@,
            ) implies crate::dequantize::sizes_computable(
            stored[p + ".weight"@],
            stored[p + ".scales"@],
            quantization,
        ) by {
            assert(quantized(stored, p));
        }
    }
}

} // verus!
