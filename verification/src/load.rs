//! Loading of a checkpoint and routing of its weights to the parts of the
//! model.

use safetensors::{SafeTensorError, SafeTensors};
use vstd::prelude::*;

use crate::error::VoxtralError;
use crate::quantization::QuantizationConfig;
use crate::route::{partition_weights, WeightPartitions};
use crate::safetensors_file::{has_fitting_size, read_tensors};
use crate::shard::{is_shard_computable, load_quantized_shard};
use crate::tensor::Tensor;
use crate::weight_map::WeightMap;

verus! {

/// A file of a quantized checkpoint: its path, for messages, and its bytes or
/// the error with which reading it failed.
#[derive(Debug)]
pub struct ShardFile {
    pub path: String,
    pub bytes: Result<Vec<u8>, VoxtralError>,
}

/// `order` visits each tensor once.
pub open spec fn visits(
    order: Seq<Seq<char>>,
    stored: Map<Seq<char>, crate::tensor::TensorInfo>,
) -> bool {
    &&& order.no_duplicates()
    &&& forall|n: Seq<char>| order.contains(n) <==> #[trigger] stored.dom().contains(n)
}

/// No tensor of a file gives rise to an error.
pub open spec fn faultless(
    stored: Map<Seq<char>, crate::tensor::TensorInfo>,
    path: Seq<char>,
    quantization: QuantizationConfig,
) -> bool {
    forall|n: Seq<char>| #[trigger]
        stored.dom().contains(n) ==> {
            &&& crate::shard::scales_error(stored, path, quantization, n) is None
            &&& crate::shard::plain_error(stored, n) is None
        }
}

/// The tensors of a file, where it was read and is valid.
pub open spec fn shard_tensors(shard: ShardFile) -> Option<
    Map<Seq<char>, crate::tensor::TensorInfo>,
> {
    match shard.bytes {
        Ok(bytes) => crate::safetensors_file::parsed_tensors(bytes@),
        Err(_) => None,
    }
}

/// The tensors of a file that was read and is valid are well-formed, and the
/// file is exactly as long as its header declares.
pub open spec fn shard_sound(shard: ShardFile) -> bool {
    shard_tensors(shard) matches Some(stored) ==> {
        &&& crate::shard::tensors_wf(stored)
        &&& crate::safetensors_file::declared_size_met(shard.bytes->Ok_0@)
    }
}

/// A file can be loaded: it was read, is valid, and all its weights can be
/// computed.
pub open spec fn shard_loads(shard: ShardFile, quantization: QuantizationConfig) -> bool {
    match shard_tensors(shard) {
        Some(stored) => {
            &&& crate::safetensors_file::declared_size_fits(shard.bytes->Ok_0@)
            &&& crate::shard::shard_computable(stored, quantization)
            &&& faultless(stored, shard.path@, quantization)
        },
        None => false,
    }
}

/// How the load of a file that cannot be loaded ends: with an error, or with
/// `None` where a size cannot be computed.
///
/// The reason for which bytes are not valid is what an error of the parser
/// prints, and of several faulty tensors the one that is visited first counts.
/// The tensors of valid bytes are well-formed: no error is about alignment.
pub open spec fn shard_stops(
    shard: ShardFile,
    quantization: QuantizationConfig,
    outcome: Option<crate::error::ErrorView>,
) -> bool {
    match shard.bytes {
        Err(e) => outcome == Some(e@),
        Ok(bytes) => if !crate::safetensors_file::declared_size_fits(bytes@) {
            outcome is None
        } else {
            match crate::safetensors_file::parsed_tensors(bytes@) {
                None => exists|error: SafeTensorError, reason: String| #[trigger]
                    vstd::string::to_string_from_display_ensures::<SafeTensorError>(&error, reason)
                        && outcome == Some(crate::error::parse_error(shard.path@, reason@)),
                Some(stored) => shard_sound(shard) && if !crate::shard::shard_computable(
                    stored,
                    quantization,
                ) {
                    outcome is None
                } else {
                    exists|order: Seq<Seq<char>>| #[trigger]
                        visits(order, stored) && outcome is Some && crate::shard::shard_error(
                            stored,
                            order,
                            shard.path@,
                            quantization,
                        ) == outcome
                },
            }
        },
    }
}

/// The maps laid over each other, the last on top.
pub open spec fn layered<T>(maps: Seq<Map<Seq<char>, T>>) -> Map<Seq<char>, T>
    decreases maps.len(),
{
    if maps.len() == 0 {
        Map::empty()
    } else {
        layered(maps.drop_last()).union_prefer_right(maps.last())
    }
}

/// `weights` are the weights of a quantized checkpoint: those of each file,
/// with a later file's in place of an earlier one's. The files are sound.
pub open spec fn checkpoint_yields<F: Fn(u32, u32, u32) -> u32>(
    shards: Seq<ShardFile>,
    quantization: QuantizationConfig,
    affine: F,
    weights: Map<Seq<char>, Tensor>,
) -> bool {
    exists|maps: Seq<Map<Seq<char>, Tensor>>|
        {
            &&& maps.len() == shards.len()
            &&& weights == #[trigger] layered(maps)
            &&& forall|i: int| 0 <= i < shards.len() ==> shard_sound(#[trigger] shards[i])
            &&& forall|i: int|
                0 <= i < shards.len() ==> crate::shard::yields_weights(
                    shard_tensors(#[trigger] shards[i])->0,
                    quantization,
                    affine,
                    maps[i],
                )
        }
}

/// A quantized checkpoint can be loaded: each of its files can.
pub open spec fn checkpoint_loads(shards: Seq<ShardFile>, quantization: QuantizationConfig) -> bool {
    forall|i: int| 0 <= i < shards.len() ==> shard_loads(#[trigger] shards[i], quantization)
}

/// The load of a quantized checkpoint stops at a file, with an error or, where
/// a size cannot be computed, without one.
pub open spec fn checkpoint_stops(
    shards: Seq<ShardFile>,
    quantization: QuantizationConfig,
    outcome: Option<crate::error::ErrorView>,
) -> bool {
    exists|k: int|
        {
            &&& 0 <= k < shards.len()
            &&& forall|j: int| 0 <= j < k ==> shard_loads(#[trigger] shards[j], quantization)
            &&& shard_stops(#[trigger] shards[k], quantization, outcome)
        }
}

proof fn lemma_no_first_error(
    names: Seq<Seq<char>>,
    error: spec_fn(Seq<char>) -> Option<crate::error::ErrorView>,
)
    ensures
        crate::shard::first_error(names, error) is None <==> forall|i: int|
            0 <= i < names.len() ==> error(#[trigger] names[i]) is None,
    decreases names.len(),
{
    if names.len() > 0 {
        let front = names.drop_last();
        lemma_no_first_error(front, error);
        if crate::shard::first_error(names, error) is None {
            assert forall|i: int| 0 <= i < names.len() implies error(#[trigger] names[i]) is None by {
                if i < front.len() {
                    assert(front[i] == names[i]);
                }
            }
        }
        if forall|i: int| 0 <= i < names.len() ==> error(#[trigger] names[i]) is None {
            assert(forall|i: int|
                0 <= i < front.len() ==> error(#[trigger] front[i]) is None);
        }
    }
}

/// Whether a file loads does not depend on the order in which its tensors are
/// visited: it does exactly where none of them gives rise to an error.
pub proof fn law_order_decides_no_failure(
    stored: Map<Seq<char>, crate::tensor::TensorInfo>,
    order: Seq<Seq<char>>,
    path: Seq<char>,
    quantization: QuantizationConfig,
)
    requires
        visits(order, stored),
    ensures
        crate::shard::shard_error(stored, order, path, quantization) is None <==> faultless(
            stored,
            path,
            quantization,
        ),
{
    let as_scales = |n: Seq<char>| crate::shard::scales_error(stored, path, quantization, n);
    let as_plain = |n: Seq<char>| crate::shard::plain_error(stored, n);
    lemma_no_first_error(order, as_scales);
    lemma_no_first_error(order, as_plain);
    if crate::shard::shard_error(stored, order, path, quantization) is None {
        assert forall|n: Seq<char>| #[trigger] stored.dom().contains(n) implies {
            &&& crate::shard::scales_error(stored, path, quantization, n) is None
            &&& crate::shard::plain_error(stored, n) is None
        } by {
            assert(order[order.index_of(n)] == n);
        }
    }
    if faultless(stored, path, quantization) {
        assert forall|i: int| 0 <= i < order.len() implies as_scales(#[trigger] order[i]) is None
            && as_plain(order[i]) is None by {
            assert(stored.dom().contains(order[i]));
        }
    }
}

/// A file that can be loaded does not stop a load.
pub proof fn law_loadable_never_stops(
    shard: ShardFile,
    quantization: QuantizationConfig,
    outcome: Option<crate::error::ErrorView>,
)
    requires
        shard_loads(shard, quantization),
    ensures
        !shard_stops(shard, quantization, outcome),
{
    if shard_stops(shard, quantization, outcome) {
        let stored = shard_tensors(shard)->0;
        let order = choose|order: Seq<Seq<char>>| #[trigger]
            visits(order, stored) && outcome is Some && crate::shard::shard_error(
                stored,
                order,
                shard.path@,
                quantization,
            ) == outcome;
        law_order_decides_no_failure(stored, order, shard.path@, quantization);
    }
}

proof fn lemma_first_error_from(
    names: Seq<Seq<char>>,
    error: spec_fn(Seq<char>) -> Option<crate::error::ErrorView>,
) -> (i: int)
    requires
        crate::shard::first_error(names, error) is Some,
    ensures
        0 <= i < names.len(),
        crate::shard::first_error(names, error) == error(names[i]),
    decreases names.len(),
{
    if crate::shard::first_error(names.drop_last(), error) is Some {
        lemma_first_error_from(names.drop_last(), error)
    } else {
        names.len() - 1
    }
}

proof fn lemma_tensor_error_not_alignment(
    stored: Map<Seq<char>, crate::tensor::TensorInfo>,
    path: Seq<char>,
    quantization: QuantizationConfig,
    n: Seq<char>,
)
    requires
        crate::shard::tensors_wf(stored),
        stored.dom().contains(n),
    ensures
        crate::shard::scales_error(stored, path, quantization, n) matches Some(e)
            ==> !crate::error::is_alignment_error(e),
        crate::shard::plain_error(stored, n) matches Some(e) ==> !crate::error::is_alignment_error(
            e,
        ),
{
    let none: Seq<usize> = Seq::empty();
    let prefix = crate::text::stem(n, ".scales"@);
    let scales = stored[n];
    let weight = stored[prefix + ".weight"@];
    let biases = stored[prefix + ".biases"@];
    crate::decode::law_type_decides_readability(scales);
    crate::error::lemma_other_errors(
        scales.dtype.name(),
        path,
        scales.shape,
        none,
        crate::decode::signed_shape(scales.shape),
        0,
        0,
        quantization.bits as nat,
    );
    crate::error::lemma_other_errors(
        prefix,
        path,
        scales.shape,
        none,
        Seq::empty(),
        0,
        0,
        weight.shape[0] as nat,
    );
    if stored.dom().contains(prefix + ".weight"@) {
        crate::decode::law_type_decides_readability(weight);
        crate::error::lemma_other_errors(
            weight.dtype.name(),
            path,
            weight.shape,
            none,
            Seq::empty(),
            quantization.bits as nat,
            quantization.group_size as nat,
            crate::dequantize::expected_words(scales, quantization) as nat,
        );
    }
    if stored.dom().contains(prefix + ".biases"@) {
        crate::decode::law_type_decides_readability(biases);
        crate::error::lemma_other_errors(
            biases.dtype.name(),
            path,
            biases.shape,
            scales.shape,
            Seq::empty(),
            0,
            0,
            0,
        );
    }
}

/// A file that was read does not stop a load for want of alignment: the parser
/// accepts no tensor whose bytes do not divide into elements.
pub proof fn law_read_file_is_aligned(
    shard: ShardFile,
    quantization: QuantizationConfig,
    error: crate::error::ErrorView,
)
    requires
        shard.bytes is Ok,
        shard_stops(shard, quantization, Some(error)),
    ensures
        !crate::error::is_alignment_error(error),
{
    if let Some(stored) = shard_tensors(shard) {
        let path = shard.path@;
        let as_scales = |n: Seq<char>| crate::shard::scales_error(stored, path, quantization, n);
        let as_plain = |n: Seq<char>| crate::shard::plain_error(stored, n);
        let order = choose|order: Seq<Seq<char>>| #[trigger]
            visits(order, stored) && crate::shard::shard_error(stored, order, path, quantization)
                == Some(error);
        let i = if crate::shard::first_error(order, as_scales) is Some {
            lemma_first_error_from(order, as_scales)
        } else {
            lemma_first_error_from(order, as_plain)
        };
        assert(order.contains(order[i]));
        assert(stored.dom().contains(order[i]));
        lemma_tensor_error_not_alignment(stored, path, quantization, order[i]);
    }
}

/// A checkpoint that can be loaded stops at no file.
pub proof fn law_loadable_checkpoint_never_stops(
    shards: Seq<ShardFile>,
    quantization: QuantizationConfig,
    outcome: Option<crate::error::ErrorView>,
)
    requires
        checkpoint_loads(shards, quantization),
    ensures
        !checkpoint_stops(shards, quantization, outcome),
{
    if checkpoint_stops(shards, quantization, outcome) {
        let k = choose|k: int|
            {
                &&& 0 <= k < shards.len()
                &&& forall|j: int| 0 <= j < k ==> shard_loads(#[trigger] shards[j], quantization)
                &&& shard_stops(#[trigger] shards[k], quantization, outcome)
            };
        law_loadable_never_stops(shards[k], quantization, outcome);
    }
}

proof fn lemma_stops_at(
    shards: Seq<ShardFile>,
    k: int,
    quantization: QuantizationConfig,
    outcome: Option<crate::error::ErrorView>,
)
    requires
        0 <= k < shards.len(),
        forall|j: int| 0 <= j < k ==> shard_loads(#[trigger] shards[j], quantization),
        shard_stops(shards[k], quantization, outcome),
    ensures
        checkpoint_stops(shards, quantization, outcome),
        !checkpoint_loads(shards, quantization),
{
    if checkpoint_loads(shards, quantization) {
        law_loadable_checkpoint_never_stops(shards, quantization, outcome);
    }
}

/// Loads the weights of one file of a quantized checkpoint from its bytes.
fn load_quantized_file<F: Fn(u32, u32, u32) -> u32>(
    shard: ShardFile,
    quantization: &QuantizationConfig,
    affine: &F,
) -> (r: Option<Result<WeightMap<Tensor>, VoxtralError>>)
    requires
        forall|q: u32, s: u32, b: u32| #[trigger] affine.requires((q, s, b)),
    ensures
        match r {
            Some(Ok(weights)) => {
                &&& shard_loads(shard, *quantization)
                &&& shard_sound(shard)
                &&& crate::shard::yields_weights(
                    shard_tensors(shard)->0,
                    *quantization,
                    *affine,
                    weights@,
                )
            },
            Some(Err(e)) => shard_stops(shard, *quantization, Some(e@)),
            None => shard_stops(shard, *quantization, None),
        },
{
    let bytes = match shard.bytes {
        Ok(bytes) => bytes,
        Err(e) => {
            return Some(Err(e));
        },
    };
    if !has_fitting_size(bytes.as_slice()) {
        return None;
    }
    let file = match SafeTensors::deserialize(bytes.as_slice()) {
        Ok(file) => file,
        Err(e) => {
            let reason = e.to_string();
            return Some(Err(VoxtralError::parse(shard.path.as_str(), reason.as_str())));
        },
    };
    let tensors = read_tensors(&file);
    let ghost stored = crate::shard::stored(tensors@);
    let ghost order = crate::shard::names(tensors@);
    if !is_shard_computable(&tensors, quantization) {
        return None;
    }
    assert(visits(order, stored));
    proof {
        law_order_decides_no_failure(stored, order, shard.path@, *quantization);
    }
    match load_quantized_shard(shard.path.as_str(), &tensors, quantization, affine) {
        Ok(weights) => Some(Ok(weights)),
        Err(e) => Some(Err(e)),
    }
}

/// Loads the weights of a quantized checkpoint, file by file.
///
/// The result is `None` where a size cannot be computed: the header of a file
/// declares one that is no `usize`, or a weight has values with no width from
/// 1 to 32 bits, or columns whose number is no `usize`.
pub fn load_quantized_weights<F: Fn(u32, u32, u32) -> u32>(
    shards: Vec<ShardFile>,
    quantization: &QuantizationConfig,
    affine: &F,
) -> (r: Option<Result<WeightMap<Tensor>, VoxtralError>>)
    requires
        forall|q: u32, s: u32, b: u32| #[trigger] affine.requires((q, s, b)),
    ensures
        r matches Some(Ok(_)) <==> checkpoint_loads(shards@, *quantization),
        match r {
            Some(Ok(weights)) => checkpoint_yields(shards@, *quantization, *affine, weights@),
            Some(Err(e)) => checkpoint_stops(shards@, *quantization, Some(e@)),
            None => checkpoint_stops(shards@, *quantization, None),
        },
{
    let ghost all = shards@;
    let ghost mut maps: Seq<Map<Seq<char>, Tensor>> = Seq::empty();
    let mut weights: WeightMap<Tensor> = WeightMap::new();
    for shard in it: shards
        invariant
            forall|q: u32, s: u32, b: u32| #[trigger] affine.requires((q, s, b)),
            it.seq() == all,
            maps.len() == it.index(),
            weights@ == layered(maps),
            forall|i: int| 0 <= i < it.index() ==> shard_loads(#[trigger] all[i], *quantization),
            forall|i: int| 0 <= i < it.index() ==> shard_sound(#[trigger] all[i]),
            forall|i: int|
                0 <= i < it.index() ==> crate::shard::yields_weights(
                    shard_tensors(#[trigger] all[i])->0,
                    *quantization,
                    *affine,
                    maps[i],
                ),
    {
        let ghost k = it.index() as int;
        match load_quantized_file(shard, quantization, affine) {
            Some(Ok(loaded)) => {
                proof {
                    assert(maps.push(loaded@).drop_last() =~= maps);
                    maps = maps.push(loaded@);
                }
                weights.absorb(loaded);
            },
            Some(Err(e)) => {
                proof {
                    lemma_stops_at(all, k, *quantization, Some(e@));
                }
                return Some(Err(e));
            },
            None => {
                proof {
                    lemma_stops_at(all, k, *quantization, None);
                }
                return None;
            },
        }
    }
    Some(Ok(weights))
}

/// The weights of a checkpoint whose files the tensor library has loaded.
pub open spec fn standard_weights<T>(
    shards: Seq<Result<Vec<(String, T)>, VoxtralError>>,
) -> Map<Seq<char>, T> {
    layered(
        shards.map_values(
            |shard: Result<Vec<(String, T)>, VoxtralError>|
                crate::weight_map::overlay(Map::empty(), shard->Ok_0@),
        ),
    )
}

/// Collects the weights of a checkpoint whose files the tensor library has
/// loaded, or failed to load, one by one.
pub fn load_standard_weights<T>(shards: Vec<Result<Vec<(String, T)>, VoxtralError>>) -> (r: Result<
    WeightMap<T>,
    VoxtralError,
>)
    ensures
        match r {
            Ok(weights) => {
                &&& forall|i: int| 0 <= i < shards@.len() ==> (#[trigger] shards@[i]) is Ok
                &&& weights@ == standard_weights(shards@)
            },
            Err(e) => exists|k: int|
                {
                    &&& 0 <= k < shards@.len()
                    &&& forall|j: int| 0 <= j < k ==> (#[trigger] shards@[j]) is Ok
                    &&& #[trigger] shards@[k] == Err::<Vec<(String, T)>, VoxtralError>(e)
                },
        },
{
    let ghost all = shards@;
    let ghost maps = all.map_values(
        |shard: Result<Vec<(String, T)>, VoxtralError>|
            crate::weight_map::overlay(Map::<Seq<char>, T>::empty(), shard->Ok_0@),
    );
    let mut weights: WeightMap<T> = WeightMap::new();
    for shard in it: shards
        invariant
            it.seq() == all,
            maps == all.map_values(
                |shard: Result<Vec<(String, T)>, VoxtralError>|
                    crate::weight_map::overlay(Map::<Seq<char>, T>::empty(), shard->Ok_0@),
            ),
            forall|i: int| 0 <= i < it.index() ==> (#[trigger] all[i]) is Ok,
            weights@ == layered(maps.take(it.index() as int)),
    {
        let ghost k = it.index() as int;
        match shard {
            Ok(entries) => {
                proof {
                    assert(maps.take(k + 1).drop_last() =~= maps.take(k));
                    crate::weight_map::lemma_overlay_union(weights@, entries@);
                }
                weights.extend(entries);
            },
            Err(e) => {
                return Err(e);
            },
        }
    }
    assert(maps.take(maps.len() as int) =~= maps);
    Ok(weights)
}

/// What was read of a checkpoint.
#[derive(Debug)]
pub enum Checkpoint<T> {
    /// The tensors of each file, as the tensor library has loaded them.
    Standard(Vec<Result<Vec<(String, T)>, VoxtralError>>),
    /// The bytes of each file, and how its weights are quantized.
    Quantized(Vec<ShardFile>, QuantizationConfig),
}

impl<T> Checkpoint<T> {
    /// The number of files.
    pub open spec fn file_count(self) -> nat {
        match self {
            Checkpoint::Standard(shards) => shards@.len(),
            Checkpoint::Quantized(shards, _) => shards@.len(),
        }
    }
}

/// The weights of the parts of the model: those of the tensor library, or
/// those that were decoded here.
#[derive(Debug)]
pub enum ModelWeights<T> {
    Standard(WeightPartitions<T>),
    Quantized(WeightPartitions<Tensor>),
}

/// A checkpoint can be loaded: it has files, and each of them can be.
pub open spec fn model_loads<T>(checkpoint: Checkpoint<T>) -> bool {
    &&& checkpoint.file_count() > 0
    &&& match checkpoint {
        Checkpoint::Standard(shards) => forall|i: int|
            0 <= i < shards@.len() ==> (#[trigger] shards@[i]) is Ok,
        Checkpoint::Quantized(shards, quantization) => checkpoint_loads(shards@, quantization),
    }
}

/// The load of a checkpoint stops: there is no file, or one that cannot be
/// loaded.
pub open spec fn model_stops<T>(
    model_dir: Seq<char>,
    checkpoint: Checkpoint<T>,
    outcome: Option<crate::error::ErrorView>,
) -> bool {
    if checkpoint.file_count() == 0 {
        outcome == Some(crate::error::no_files_error(model_dir))
    } else {
        match checkpoint {
            Checkpoint::Standard(shards) => exists|k: int|
                {
                    &&& 0 <= k < shards@.len()
                    &&& forall|j: int| 0 <= j < k ==> (#[trigger] shards@[j]) is Ok
                    &&& (#[trigger] shards@[k]) matches Err(e) && outcome == Some(e@)
                },
            Checkpoint::Quantized(shards, quantization) => checkpoint_stops(
                shards@,
                quantization,
                outcome,
            ),
        }
    }
}

/// The parts hold the weights of a checkpoint.
pub open spec fn model_yields<T, F: Fn(u32, u32, u32) -> u32>(
    checkpoint: Checkpoint<T>,
    affine: F,
    model: ModelWeights<T>,
) -> bool {
    match (checkpoint, model) {
        (Checkpoint::Standard(shards), ModelWeights::Standard(parts)) => parts.partitions(
            standard_weights(shards@),
        ),
        (
            Checkpoint::Quantized(shards, quantization),
            ModelWeights::Quantized(parts),
        ) => exists|weights: Map<Seq<char>, Tensor>| #[trigger]
            checkpoint_yields(shards@, quantization, affine, weights) && parts.partitions(weights),
        _ => false,
    }
}

/// `r` is how the load of a checkpoint ends: with the weights of the parts of
/// the model, with an error, or with `None` where a size cannot be computed.
pub open spec fn model_outcome<T, F: Fn(u32, u32, u32) -> u32>(
    model_dir: Seq<char>,
    checkpoint: Checkpoint<T>,
    affine: F,
    r: Option<Result<ModelWeights<T>, VoxtralError>>,
) -> bool {
    match r {
        Some(Ok(model)) => model_loads(checkpoint) && model_yields(checkpoint, affine, model),
        Some(Err(e)) => !model_loads(checkpoint) && model_stops(model_dir, checkpoint, Some(e@)),
        None => !model_loads(checkpoint) && model_stops(model_dir, checkpoint, None),
    }
}

/// Loads the weights of a checkpoint and parts them by the part of the model
/// that they belong to.
///
/// `model_dir` is for messages. The result is `None` where a size cannot be
/// computed, as in [`load_quantized_weights`].
pub fn load_model_weights<T, F: Fn(u32, u32, u32) -> u32>(
    model_dir: &str,
    checkpoint: Checkpoint<T>,
    affine: &F,
) -> (r: Option<Result<ModelWeights<T>, VoxtralError>>)
    requires
        forall|q: u32, s: u32, b: u32| #[trigger] affine.requires((q, s, b)),
    ensures
        model_outcome(model_dir@, checkpoint, *affine, r),
{
    match checkpoint {
        Checkpoint::Standard(shards) => {
            if shards.len() == 0 {
                return Some(Err(VoxtralError::no_files(model_dir)));
            }
            match load_standard_weights(shards) {
                Ok(weights) => Some(Ok(ModelWeights::Standard(partition_weights(weights)))),
                Err(e) => Some(Err(e)),
            }
        },
        Checkpoint::Quantized(shards, quantization) => {
            if shards.len() == 0 {
                return Some(Err(VoxtralError::no_files(model_dir)));
            }
            match load_quantized_weights(shards, &quantization, affine) {
                Some(Ok(weights)) => Some(Ok(ModelWeights::Quantized(partition_weights(weights)))),
                Some(Err(e)) => Some(Err(e)),
                None => None,
            }
        },
    }
}

proof fn lemma_layered_dom<T>(maps: Seq<Map<Seq<char>, T>>, name: Seq<char>)
    ensures
        layered(maps).dom().contains(name) <==> exists|k: int|
            0 <= k < maps.len() && (#[trigger] maps[k]).dom().contains(name),
    decreases maps.len(),
{
    if maps.len() > 0 {
        let front = maps.drop_last();
        lemma_layered_dom(front, name);
        if layered(front).dom().contains(name) {
            let k = choose|k: int| 0 <= k < front.len() && (#[trigger] front[k]).dom().contains(name);
            assert(maps[k].dom().contains(name));
        }
        if exists|k: int| 0 <= k < maps.len() && (#[trigger] maps[k]).dom().contains(name) {
            let k = choose|k: int| 0 <= k < maps.len() && (#[trigger] maps[k]).dom().contains(name);
            if k < front.len() {
                assert(front[k].dom().contains(name));
            }
        }
    }
}

proof fn lemma_layered_last<T>(maps: Seq<Map<Seq<char>, T>>, name: Seq<char>, k: int)
    requires
        0 <= k < maps.len(),
        maps[k].dom().contains(name),
        forall|j: int| k < j < maps.len() ==> !(#[trigger] maps[j]).dom().contains(name),
    ensures
        layered(maps).dom().contains(name),
        layered(maps)[name] == maps[k][name],
    decreases maps.len(),
{
    if k < maps.len() - 1 {
        let front = maps.drop_last();
        assert forall|j: int| k < j < front.len() implies !(
        #[trigger] front[j]).dom().contains(name) by {
            assert(front[j] == maps[j]);
        }
        lemma_layered_last(front, name, k);
        assert(!maps[maps.len() - 1].dom().contains(name));
    }
}

/// Where several files hold a weight of the same name, the last one's counts;
/// and no name comes from anywhere else.
pub proof fn law_last_file_wins<T>(maps: Seq<Map<Seq<char>, T>>, name: Seq<char>)
    ensures
        layered(maps).dom().contains(name) <==> exists|k: int|
            0 <= k < maps.len() && (#[trigger] maps[k]).dom().contains(name),
        forall|k: int|
            0 <= k < maps.len() && (#[trigger] maps[k]).dom().contains(name) && (forall|j: int|
                k < j < maps.len() ==> !(#[trigger] maps[j]).dom().contains(name))
                ==> layered(maps)[name] == maps[k][name],
{
    lemma_layered_dom(maps, name);
    assert forall|k: int|
        0 <= k < maps.len() && (#[trigger] maps[k]).dom().contains(name) && (forall|j: int|
            k < j < maps.len() ==> !(#[trigger] maps[j]).dom().contains(name)) implies layered(
        maps,
    )[name] == maps[k][name] by {
        lemma_layered_last(maps, name, k);
    }
}

proof fn lemma_layered_same(a: Seq<Map<Seq<char>, Tensor>>, b: Seq<Map<Seq<char>, Tensor>>)
    requires
        a.len() == b.len(),
        forall|i: int| 0 <= i < a.len() ==> crate::shard::same_weights(#[trigger] a[i], b[i]),
    ensures
        crate::shard::same_weights(layered(a), layered(b)),
    decreases a.len(),
{
    if a.len() > 0 {
        let last = a.len() - 1;
        lemma_layered_same(a.drop_last(), b.drop_last());
        assert(crate::shard::same_weights(a[last], b[last]));
    }
}

/// The files of a checkpoint fix its weights, as far as `affine` fixes its
/// results: the order in which the tensors of a file are listed makes no
/// difference.
pub proof fn law_checkpoint_fixed<F: Fn(u32, u32, u32) -> u32>(
    shards: Seq<ShardFile>,
    quantization: QuantizationConfig,
    affine: F,
    a: Map<Seq<char>, Tensor>,
    b: Map<Seq<char>, Tensor>,
)
    requires
        checkpoint_yields(shards, quantization, affine, a),
        checkpoint_yields(shards, quantization, affine, b),
        forall|args: (u32, u32, u32), x: u32, y: u32| #[trigger]
            affine.ensures(args, x) && #[trigger] affine.ensures(args, y) ==> x == y,
    ensures
        crate::shard::same_weights(a, b),
{
    let yielded = |maps: Seq<Map<Seq<char>, Tensor>>|
        {
            &&& maps.len() == shards.len()
            &&& forall|i: int|
                0 <= i < shards.len() ==> crate::shard::yields_weights(
                    shard_tensors(#[trigger] shards[i])->0,
                    quantization,
                    affine,
                    maps[i],
                )
        };
    let x = choose|maps: Seq<Map<Seq<char>, Tensor>>|
        a == #[trigger] layered(maps) && yielded(maps);
    let y = choose|maps: Seq<Map<Seq<char>, Tensor>>|
        b == #[trigger] layered(maps) && yielded(maps);
    assert forall|i: int| 0 <= i < x.len() implies crate::shard::same_weights(
        #[trigger] x[i],
        y[i],
    ) by {
        let stored = shard_tensors(shards[i])->0;
        crate::shard::law_weights_fixed(stored, quantization, affine, x[i], y[i]);
    }
    lemma_layered_same(x, y);
}

/// Two files of a quantized checkpoint are the same: they have the same path,
/// and the same bytes or the same error.
pub open spec fn same_shard(a: ShardFile, b: ShardFile) -> bool {
    &&& a.path@ == b.path@
    &&& match (a.bytes, b.bytes) {
        (Ok(x), Ok(y)) => x@ == y@,
        (Err(x), Err(y)) => x@ == y@,
        _ => false,
    }
}

/// The tensor library has made the same of two files: the same tensors by
/// name, in whatever order, or the same error.
pub open spec fn same_standard_file<T>(
    a: Result<Vec<(String, T)>, VoxtralError>,
    b: Result<Vec<(String, T)>, VoxtralError>,
) -> bool {
    match (a, b) {
        (Ok(x), Ok(y)) => crate::weight_map::overlay(Map::empty(), x@)
            == crate::weight_map::overlay(Map::empty(), y@),
        (Err(x), Err(y)) => x@ == y@,
        _ => false,
    }
}

/// Two checkpoints are quantized alike, and a file of the one is the same as a
/// file of the other.
pub open spec fn same_file<T>(a: Checkpoint<T>, i: int, b: Checkpoint<T>, j: int) -> bool {
    match (a, b) {
        (Checkpoint::Standard(x), Checkpoint::Standard(y)) => same_standard_file(x@[i], y@[j]),
        (Checkpoint::Quantized(x, p), Checkpoint::Quantized(y, q)) => {
            &&& p == q
            &&& same_shard(x@[i], y@[j])
        },
        _ => false,
    }
}

/// Two models have the same weights, part by part.
pub open spec fn same_model<T>(a: ModelWeights<T>, b: ModelWeights<T>) -> bool {
    match (a, b) {
        (ModelWeights::Standard(x), ModelWeights::Standard(y)) => forall|
            part: crate::route::Component,
        | #[trigger]
            x.of(part) == y.of(part),
        (ModelWeights::Quantized(x), ModelWeights::Quantized(y)) => forall|
            part: crate::route::Component,
        |
            crate::shard::same_weights(#[trigger] x.of(part), y.of(part)),
        _ => false,
    }
}

/// Two loads end alike: with the same weights, with an error each, or without
/// a result.
pub open spec fn same_outcome<T>(
    a: Option<Result<ModelWeights<T>, VoxtralError>>,
    b: Option<Result<ModelWeights<T>, VoxtralError>>,
) -> bool {
    match (a, b) {
        (Some(Ok(x)), Some(Ok(y))) => same_model(x, y),
        (Some(Err(_)), Some(Err(_))) => true,
        (None, None) => true,
        _ => false,
    }
}

/// What a load of the same files does is the same.
proof fn lemma_same_shards(a: Seq<ShardFile>, b: Seq<ShardFile>, quantization: QuantizationConfig)
    requires
        a.len() == b.len(),
        forall|i: int| 0 <= i < a.len() ==> same_shard(#[trigger] a[i], b[i]),
    ensures
        checkpoint_loads(a, quantization) ==> checkpoint_loads(b, quantization),
        forall|outcome: Option<crate::error::ErrorView>| #[trigger]
            checkpoint_stops(a, quantization, outcome) ==> checkpoint_stops(
                b,
                quantization,
                outcome,
            ),
{
    assert forall|i: int| 0 <= i < a.len() implies shard_loads(#[trigger] a[i], quantization)
        == shard_loads(b[i], quantization) by {
        assert(same_shard(a[i], b[i]));
    }
    if checkpoint_loads(a, quantization) {
        assert forall|i: int| 0 <= i < b.len() implies shard_loads(
            #[trigger] b[i],
            quantization,
        ) by {
            assert(shard_loads(a[i], quantization));
        }
    }
    assert forall|outcome: Option<crate::error::ErrorView>| #[trigger]
        checkpoint_stops(a, quantization, outcome) implies checkpoint_stops(
        b,
        quantization,
        outcome,
    ) by {
        let k = choose|k: int|
            {
                &&& 0 <= k < a.len()
                &&& forall|j: int| 0 <= j < k ==> shard_loads(#[trigger] a[j], quantization)
                &&& shard_stops(#[trigger] a[k], quantization, outcome)
            };
        assert forall|j: int| 0 <= j < k implies shard_loads(#[trigger] b[j], quantization) by {
            assert(shard_loads(a[j], quantization));
        }
        assert(same_shard(a[k], b[k]));
        assert(shard_stops(b[k], quantization, outcome));
    }
}

/// A checkpoint stops with an error, or without one, and not both.
proof fn lemma_stops_one_way(
    shards: Seq<ShardFile>,
    quantization: QuantizationConfig,
    error: crate::error::ErrorView,
)
    requires
        checkpoint_stops(shards, quantization, Some(error)),
    ensures
        !checkpoint_stops(shards, quantization, None),
{
    if checkpoint_stops(shards, quantization, None) {
        let k = choose|k: int|
            {
                &&& 0 <= k < shards.len()
                &&& forall|j: int| 0 <= j < k ==> shard_loads(#[trigger] shards[j], quantization)
                &&& shard_stops(#[trigger] shards[k], quantization, Some(error))
            };
        let m = choose|m: int|
            {
                &&& 0 <= m < shards.len()
                &&& forall|j: int| 0 <= j < m ==> shard_loads(#[trigger] shards[j], quantization)
                &&& shard_stops(#[trigger] shards[m], quantization, None)
            };
        if k < m {
            law_loadable_never_stops(shards[k], quantization, Some(error));
        } else if m < k {
            law_loadable_never_stops(shards[m], quantization, None);
        }
    }
}

proof fn lemma_same_yields<F: Fn(u32, u32, u32) -> u32>(
    a: Seq<ShardFile>,
    b: Seq<ShardFile>,
    quantization: QuantizationConfig,
    affine: F,
    weights: Map<Seq<char>, Tensor>,
)
    requires
        a.len() == b.len(),
        forall|i: int| 0 <= i < a.len() ==> same_shard(#[trigger] a[i], b[i]),
        checkpoint_yields(b, quantization, affine, weights),
    ensures
        checkpoint_yields(a, quantization, affine, weights),
{
    let yielded = |maps: Seq<Map<Seq<char>, Tensor>>|
        {
            &&& maps.len() == b.len()
            &&& forall|i: int| 0 <= i < b.len() ==> shard_sound(#[trigger] b[i])
            &&& forall|i: int|
                0 <= i < b.len() ==> crate::shard::yields_weights(
                    shard_tensors(#[trigger] b[i])->0,
                    quantization,
                    affine,
                    maps[i],
                )
        };
    let maps = choose|maps: Seq<Map<Seq<char>, Tensor>>|
        weights == #[trigger] layered(maps) && yielded(maps);
    assert forall|i: int| 0 <= i < a.len() implies crate::shard::yields_weights(
        shard_tensors(#[trigger] a[i])->0,
        quantization,
        affine,
        maps[i],
    ) && shard_sound(a[i]) by {
        assert(same_shard(a[i], b[i]));
        assert(shard_sound(b[i]));
    }
}

proof fn lemma_same_standard_files<T>(
    model_dir: Seq<char>,
    x: Vec<Result<Vec<(String, T)>, VoxtralError>>,
    y: Vec<Result<Vec<(String, T)>, VoxtralError>>,
)
    requires
        0 < x@.len() == y@.len(),
        forall|i: int| 0 <= i < x@.len() ==> same_standard_file(#[trigger] x@[i], y@[i]),
    ensures
        model_loads(Checkpoint::Standard(x)) ==> model_loads(Checkpoint::Standard(y))
            && standard_weights(x@) == standard_weights(y@),
        forall|outcome: Option<crate::error::ErrorView>| #[trigger]
            model_stops(model_dir, Checkpoint::Standard(x), outcome) ==> model_stops(
                model_dir,
                Checkpoint::Standard(y),
                outcome,
            ),
{
    let overlaid = |shard: Result<Vec<(String, T)>, VoxtralError>|
        crate::weight_map::overlay(Map::<Seq<char>, T>::empty(), shard->Ok_0@);
    if model_loads(Checkpoint::Standard(x)) {
        assert forall|i: int| 0 <= i < y@.len() implies (#[trigger] y@[i]) is Ok && overlaid(x@[i])
            == overlaid(y@[i]) by {
            assert(same_standard_file(x@[i], y@[i]));
        }
        assert(x@.map_values(overlaid) =~= y@.map_values(overlaid));
    }
    assert forall|outcome: Option<crate::error::ErrorView>| #[trigger]
        model_stops(model_dir, Checkpoint::Standard(x), outcome) implies model_stops(
        model_dir,
        Checkpoint::Standard(y),
        outcome,
    ) by {
        let k = choose|k: int|
            {
                &&& 0 <= k < x@.len()
                &&& forall|j: int| 0 <= j < k ==> (#[trigger] x@[j]) is Ok
                &&& (#[trigger] x@[k]) matches Err(e) && outcome == Some(e@)
            };
        assert forall|j: int| 0 <= j < k implies (#[trigger] y@[j]) is Ok by {
            assert(same_standard_file(x@[j], y@[j]));
        }
        assert(same_standard_file(x@[k], y@[k]));
        assert(y@[k] is Err);
    }
}

proof fn lemma_same_parts(
    x: WeightPartitions<Tensor>,
    y: WeightPartitions<Tensor>,
    a: Map<Seq<char>, Tensor>,
    b: Map<Seq<char>, Tensor>,
)
    requires
        x.partitions(a),
        y.partitions(b),
        crate::shard::same_weights(a, b),
    ensures
        forall|part: crate::route::Component|
            crate::shard::same_weights(#[trigger] x.of(part), y.of(part)),
{
    assert forall|part: crate::route::Component| crate::shard::same_weights(
        #[trigger] x.of(part),
        y.of(part),
    ) by {
        assert(x.of(part).dom() =~= y.of(part).dom());
        assert forall|n: Seq<char>| x.of(part).dom().contains(n) implies (#[trigger] x.of(
            part,
        )[n])@ == y.of(part)[n]@ by {
            assert(a[n]@ == b[n]@);
        }
    }
}

/// The files decide how a load ends, as far as `affine` fixes its results:
/// loads of the same files end alike, and where they stop, each can end with
/// the same errors as the other.
pub proof fn law_files_decide_outcome<T, F: Fn(u32, u32, u32) -> u32>(
    model_dir: Seq<char>,
    a: Checkpoint<T>,
    b: Checkpoint<T>,
    affine: F,
    from_a: Option<Result<ModelWeights<T>, VoxtralError>>,
    from_b: Option<Result<ModelWeights<T>, VoxtralError>>,
)
    requires
        a.file_count() == b.file_count(),
        forall|i: int| 0 <= i < a.file_count() ==> #[trigger] same_file(a, i, b, i),
        model_outcome(model_dir, a, affine, from_a),
        model_outcome(model_dir, b, affine, from_b),
        forall|args: (u32, u32, u32), x: u32, y: u32| #[trigger]
            affine.ensures(args, x) && #[trigger] affine.ensures(args, y) ==> x == y,
    ensures
        same_outcome(from_a, from_b),
        forall|outcome: Option<crate::error::ErrorView>| #[trigger]
            model_stops(model_dir, a, outcome) <==> model_stops(model_dir, b, outcome),
{
    if a.file_count() > 0 {
        assert(same_file(a, 0, b, 0));
        match (a, b) {
            (Checkpoint::Standard(x), Checkpoint::Standard(y)) => {
                assert forall|i: int| 0 <= i < x@.len() implies same_standard_file(
                    #[trigger] x@[i],
                    y@[i],
                ) by {
                    assert(same_file(a, i, b, i));
                }
                lemma_same_standard_files(model_dir, x, y);
                lemma_same_standard_files(model_dir, y, x);
            },
            (Checkpoint::Quantized(x, p), Checkpoint::Quantized(y, q)) => {
                assert forall|i: int| 0 <= i < x@.len() implies same_shard(
                    #[trigger] x@[i],
                    y@[i],
                ) by {
                    assert(same_file(a, i, b, i));
                }
                lemma_same_shards(x@, y@, p);
                assert forall|i: int| 0 <= i < y@.len() implies same_shard(
                    #[trigger] y@[i],
                    x@[i],
                ) by {
                    assert(same_shard(x@[i], y@[i]));
                }
                lemma_same_shards(y@, x@, p);
                match (from_a, from_b) {
                    (Some(Ok(ModelWeights::Quantized(v))), Some(Ok(ModelWeights::Quantized(w)))) => {
                        let of_a = choose|weights: Map<Seq<char>, Tensor>| #[trigger]
                            checkpoint_yields(x@, p, affine, weights) && v.partitions(weights);
                        let of_b = choose|weights: Map<Seq<char>, Tensor>| #[trigger]
                            checkpoint_yields(y@, p, affine, weights) && w.partitions(weights);
                        lemma_same_yields(x@, y@, p, affine, of_b);
                        law_checkpoint_fixed(x@, p, affine, of_a, of_b);
                        lemma_same_parts(v, w, of_a, of_b);
                    },
                    (Some(Err(e)), None) => {
                        lemma_stops_one_way(x@, p, e@);
                    },
                    (None, Some(Err(e))) => {
                        lemma_stops_one_way(y@, p, e@);
                    },
                    _ => {},
                }
            },
            _ => {},
        }
    }
}

/// With a consolidated checkpoint present, nothing else in the directory has
/// any influence on a load: where the consolidated file is the same in two
/// directories, whatever else they list, what is read of the chosen files
/// loads alike.
pub proof fn law_consolidated_decides_outcome<T, F: Fn(u32, u32, u32) -> u32>(
    model_dir: Seq<char>,
    entries_a: Seq<Seq<u8>>,
    entries_b: Seq<Seq<u8>>,
    names_a: Seq<Seq<u8>>,
    names_b: Seq<Seq<u8>>,
    a: Checkpoint<T>,
    b: Checkpoint<T>,
    affine: F,
    from_a: Option<Result<ModelWeights<T>, VoxtralError>>,
    from_b: Option<Result<ModelWeights<T>, VoxtralError>>,
)
    requires
        crate::files::chooses(true, entries_a, names_a),
        crate::files::chooses(true, entries_b, names_b),
        a.file_count() == names_a.len(),
        b.file_count() == names_b.len(),
        forall|i: int, j: int|
            0 <= i < names_a.len() && 0 <= j < names_b.len() && names_a[i]
                == crate::files::consolidated_name() && names_b[j]
                == crate::files::consolidated_name() ==> #[trigger] same_file(a, i, b, j),
        model_outcome(model_dir, a, affine, from_a),
        model_outcome(model_dir, b, affine, from_b),
        forall|args: (u32, u32, u32), x: u32, y: u32| #[trigger]
            affine.ensures(args, x) && #[trigger] affine.ensures(args, y) ==> x == y,
    ensures
        same_outcome(from_a, from_b),
        forall|outcome: Option<crate::error::ErrorView>| #[trigger]
            model_stops(model_dir, a, outcome) <==> model_stops(model_dir, b, outcome),
{
    crate::files::law_consolidated_alone(entries_a, entries_b, names_a, names_b);
    law_files_decide_outcome(model_dir, a, b, affine, from_a, from_b);
}

/// The tensors of a file are those that its bytes hold; a file that was not
/// read has none.
pub proof fn law_shard_tensors(shard: ShardFile)
    ensures
        shard.bytes matches Ok(bytes) ==> shard_tensors(shard)
            == crate::safetensors_file::parsed_tensors(bytes@),
        shard.bytes is Err ==> shard_tensors(shard) is None,
{
}

/// A file can be loaded exactly where it was read, declares a size that can be
/// counted, is valid, has weights whose sizes can be computed, and no tensor
/// that gives rise to an error.
pub proof fn law_when_a_file_loads(shard: ShardFile, quantization: QuantizationConfig)
    ensures
        shard_loads(shard, quantization) <==> {
            &&& shard.bytes is Ok
            &&& crate::safetensors_file::declared_size_fits(shard.bytes->Ok_0@)
            &&& crate::safetensors_file::parsed_tensors(shard.bytes->Ok_0@) matches Some(stored) && {
                &&& crate::shard::shard_computable(stored, quantization)
                &&& forall|n: Seq<char>| #[trigger]
                    stored.dom().contains(n) ==> {
                        &&& crate::shard::scales_error(
                            stored,
                            shard.path@,
                            quantization,
                            n,
                        ) is None
                        &&& crate::shard::plain_error(stored, n) is None
                    }
            }
        },
{
}

/// How a file stops a load: with the error of reading it; without one, where a
/// size cannot be computed; with the parser's reason, where it is not valid;
/// and otherwise with the first fault along some order of all its tensors.
pub proof fn law_how_a_file_stops(
    shard: ShardFile,
    quantization: QuantizationConfig,
    outcome: Option<crate::error::ErrorView>,
)
    requires
        shard_stops(shard, quantization, outcome),
    ensures
        shard.bytes matches Err(e) ==> outcome == Some(e@),
        shard.bytes matches Ok(bytes) ==> {
            let parsed = crate::safetensors_file::parsed_tensors(bytes@);
            if !crate::safetensors_file::declared_size_fits(bytes@) {
                outcome is None
            } else if parsed is None {
                exists|error: SafeTensorError, reason: String| #[trigger]
                    vstd::string::to_string_from_display_ensures::<SafeTensorError>(&error, reason)
                        && outcome == Some(
                        crate::error::ErrorView::Safetensors(
                            "Failed to parse "@ + shard.path@ + ": "@ + reason@,
                        ),
                    )
            } else if !crate::shard::shard_computable(parsed->0, quantization) {
                outcome is None
            } else {
                outcome is Some && exists|order: Seq<Seq<char>>|
                    {
                        &&& order.no_duplicates()
                        &&& forall|n: Seq<char>| order.contains(n) <==> #[trigger] (
                        parsed->0).dom().contains(n)
                        &&& #[trigger] crate::shard::shard_error(
                            parsed->0,
                            order,
                            shard.path@,
                            quantization,
                        ) == outcome
                    }
            }
        },
{
    if let Ok(bytes) = shard.bytes {
        let parsed = crate::safetensors_file::parsed_tensors(bytes@);
        if crate::safetensors_file::declared_size_fits(bytes@) && parsed is Some
            && crate::shard::shard_computable(parsed->0, quantization) {
            let order = choose|order: Seq<Seq<char>>| #[trigger]
                visits(order, parsed->0) && outcome is Some && crate::shard::shard_error(
                    parsed->0,
                    order,
                    shard.path@,
                    quantization,
                ) == outcome;
            assert(crate::shard::shard_error(parsed->0, order, shard.path@, quantization)
                == outcome);
        }
    }
}

/// A checkpoint stops at its first file that cannot be loaded, as that file
/// does.
pub proof fn law_first_bad_file_stops(
    shards: Seq<ShardFile>,
    quantization: QuantizationConfig,
    k: int,
    outcome: Option<crate::error::ErrorView>,
)
    requires
        0 <= k < shards.len(),
        forall|j: int| 0 <= j < k ==> shard_loads(#[trigger] shards[j], quantization),
        !shard_loads(shards[k], quantization),
    ensures
        checkpoint_stops(shards, quantization, outcome) <==> shard_stops(
            shards[k],
            quantization,
            outcome,
        ),
        !checkpoint_loads(shards, quantization),
{
    if checkpoint_stops(shards, quantization, outcome) {
        let m = choose|m: int|
            {
                &&& 0 <= m < shards.len()
                &&& forall|j: int| 0 <= j < m ==> shard_loads(#[trigger] shards[j], quantization)
                &&& shard_stops(#[trigger] shards[m], quantization, outcome)
            };
        if m < k {
            law_loadable_never_stops(shards[m], quantization, outcome);
        }
    }
}

/// A checkpoint can be loaded exactly where each of its files can.
pub proof fn law_when_a_checkpoint_loads(
    shards: Seq<ShardFile>,
    quantization: QuantizationConfig,
)
    ensures
        checkpoint_loads(shards, quantization) <==> forall|i: int|
            0 <= i < shards.len() ==> shard_loads(#[trigger] shards[i], quantization),
{
}

/// A weight of a quantized checkpoint is that of the last file that gives one
/// under its name, as that file gives it; and there is none where no file
/// does.
pub proof fn law_weight_of_last_file<F: Fn(u32, u32, u32) -> u32>(
    shards: Seq<ShardFile>,
    quantization: QuantizationConfig,
    affine: F,
    weights: Map<Seq<char>, Tensor>,
    name: Seq<char>,
    k: int,
)
    requires
        checkpoint_yields(shards, quantization, affine, weights),
    ensures
        0 <= k < shards.len() && crate::shard::gives(shard_tensors(shards[k])->0, name) && (forall|
            j: int,
        |
            k < j < shards.len() ==> !crate::shard::gives(
                shard_tensors(#[trigger] shards[j])->0,
                name,
            )) ==> weights.dom().contains(name) && exists|file: Map<Seq<char>, Tensor>|
            {
                &&& #[trigger] crate::shard::yields_weights(
                    shard_tensors(shards[k])->0,
                    quantization,
                    affine,
                    file,
                )
                &&& file.dom().contains(name)
                &&& weights[name] == file[name]
            },
        (forall|j: int|
            0 <= j < shards.len() ==> !crate::shard::gives(
                shard_tensors(#[trigger] shards[j])->0,
                name,
            )) ==> !weights.dom().contains(name),
{
    let yielded = |maps: Seq<Map<Seq<char>, Tensor>>|
        {
            &&& maps.len() == shards.len()
            &&& forall|i: int|
                0 <= i < shards.len() ==> crate::shard::yields_weights(
                    shard_tensors(#[trigger] shards[i])->0,
                    quantization,
                    affine,
                    maps[i],
                )
        };
    let maps = choose|maps: Seq<Map<Seq<char>, Tensor>>|
        weights == #[trigger] layered(maps) && yielded(maps);
    assert forall|i: int| 0 <= i < maps.len() implies (#[trigger] maps[i]).dom().contains(name)
        == crate::shard::gives(shard_tensors(shards[i])->0, name) by {
        crate::shard::law_given_names(
            shard_tensors(shards[i])->0,
            quantization,
            affine,
            maps[i],
            name,
        );
    }
    lemma_layered_dom(maps, name);
    if 0 <= k < shards.len() && maps[k].dom().contains(name) && (forall|j: int|
        k < j < shards.len() ==> !crate::shard::gives(
            shard_tensors(#[trigger] shards[j])->0,
            name,
        )) {
        assert forall|j: int| k < j < maps.len() implies !(
        #[trigger] maps[j]).dom().contains(name) by {
            assert(!crate::shard::gives(shard_tensors(shards[j])->0, name));
        }
        lemma_layered_last(maps, name, k);
        assert(crate::shard::yields_weights(
            shard_tensors(shards[k])->0,
            quantization,
            affine,
            maps[k],
        ));
    }
}

/// A weight of a checkpoint that the tensor library has loaded is the last
/// entry of its name, of the last file that has one; and there is none where no
/// file has.
pub proof fn law_standard_weight_of_last_file<T>(
    shards: Seq<Result<Vec<(String, T)>, VoxtralError>>,
    name: Seq<char>,
    k: int,
    i: int,
)
    requires
        forall|j: int| 0 <= j < shards.len() ==> (#[trigger] shards[j]) is Ok,
    ensures
        0 <= k < shards.len() && 0 <= i < (shards[k]->Ok_0)@.len() && (shards[k]->Ok_0)@[i].0@
            == name && (forall|m: int|
            i < m < (shards[k]->Ok_0)@.len() ==> (#[trigger] (shards[k]->Ok_0)@[m]).0@ != name) && (
        forall|j: int, m: int|
            k < j < shards.len() && 0 <= m < (shards[j]->Ok_0)@.len() ==> (#[trigger] (
            shards[j]->Ok_0)@[m]).0@ != name) ==> standard_weights(shards).dom().contains(name)
            && standard_weights(shards)[name] == (shards[k]->Ok_0)@[i].1,
        (forall|j: int, m: int|
            0 <= j < shards.len() && 0 <= m < (shards[j]->Ok_0)@.len() ==> (#[trigger] (
            shards[j]->Ok_0)@[m]).0@ != name) ==> !standard_weights(shards).dom().contains(name),
{
    let overlaid = |shard: Result<Vec<(String, T)>, VoxtralError>|
        crate::weight_map::overlay(Map::<Seq<char>, T>::empty(), shard->Ok_0@);
    let maps = shards.map_values(overlaid);
    assert forall|j: int| 0 <= j < shards.len() && (forall|m: int|
        0 <= m < (shards[j]->Ok_0)@.len() ==> (#[trigger] (shards[j]->Ok_0)@[m]).0@
            != name) implies !(#[trigger] maps[j]).dom().contains(name) by {
        crate::weight_map::law_last_entry_counts(
            Map::<Seq<char>, T>::empty(),
            (shards[j]->Ok_0)@,
            name,
        );
    }
    lemma_layered_dom(maps, name);
    if 0 <= k < shards.len() && 0 <= i < (shards[k]->Ok_0)@.len() && (shards[k]->Ok_0)@[i].0@
        == name && (forall|m: int|
        i < m < (shards[k]->Ok_0)@.len() ==> (#[trigger] (shards[k]->Ok_0)@[m]).0@ != name) && (
    forall|j: int, m: int|
        k < j < shards.len() && 0 <= m < (shards[j]->Ok_0)@.len() ==> (#[trigger] (
        shards[j]->Ok_0)@[m]).0@ != name) {
        crate::weight_map::law_last_entry_counts(
            Map::<Seq<char>, T>::empty(),
            (shards[k]->Ok_0)@,
            name,
        );
        lemma_layered_last(maps, name, k);
    }
}

/// A checkpoint of the tensor library gives its weights, routed, exactly where
/// it has files and all of them were loaded; otherwise the load ends with the
/// error of the first file that was not.
pub proof fn law_standard_outcome<T, F: Fn(u32, u32, u32) -> u32>(
    model_dir: Seq<char>,
    shards: Vec<Result<Vec<(String, T)>, VoxtralError>>,
    affine: F,
    r: Option<Result<ModelWeights<T>, VoxtralError>>,
    k: int,
)
    requires
        model_outcome(model_dir, Checkpoint::Standard(shards), affine, r),
    ensures
        shards@.len() == 0 ==> (r matches Some(Err(e)) && e@ == crate::error::ErrorView::ModelLoad(
            "No safetensors files found in "@ + model_dir,
        )),
        shards@.len() > 0 && (forall|i: int|
            0 <= i < shards@.len() ==> (#[trigger] shards@[i]) is Ok) ==> (r matches Some(
            Ok(ModelWeights::Standard(parts)),
        ) && parts.partitions(standard_weights(shards@))),
        0 <= k < shards@.len() && (forall|i: int| 0 <= i < k ==> (#[trigger] shards@[i]) is Ok)
            && shards@[k] is Err ==> (r matches Some(Err(e)) && e@ == (shards@[k]->Err_0)@),
{
    if 0 <= k < shards@.len() && (forall|i: int| 0 <= i < k ==> (#[trigger] shards@[i]) is Ok)
        && shards@[k] is Err {
        assert(!model_loads(Checkpoint::Standard(shards)));
    }
}

/// A quantized checkpoint gives its weights, routed, exactly where it has files
/// and all of them can be loaded; otherwise the load ends as its first file
/// that cannot be loaded makes it.
pub proof fn law_quantized_outcome<T, F: Fn(u32, u32, u32) -> u32>(
    model_dir: Seq<char>,
    shards: Vec<ShardFile>,
    quantization: QuantizationConfig,
    affine: F,
    r: Option<Result<ModelWeights<T>, VoxtralError>>,
    k: int,
)
    requires
        model_outcome(model_dir, Checkpoint::Quantized(shards, quantization), affine, r),
    ensures
        shards@.len() == 0 ==> (r matches Some(Err(e)) && e@ == crate::error::ErrorView::ModelLoad(
            "No safetensors files found in "@ + model_dir,
        )),
        shards@.len() > 0 && (forall|i: int|
            0 <= i < shards@.len() ==> shard_loads(#[trigger] shards@[i], quantization)) ==> (
        r matches Some(Ok(ModelWeights::Quantized(parts))) && exists|
            weights: Map<Seq<char>, Tensor>,
        | #[trigger]
            checkpoint_yields(shards@, quantization, affine, weights) && parts.partitions(weights)),
        0 <= k < shards@.len() && (forall|i: int|
            0 <= i < k ==> shard_loads(#[trigger] shards@[i], quantization)) && !shard_loads(
            shards@[k],
            quantization,
        ) ==> match r {
            Some(Ok(_)) => false,
            Some(Err(e)) => shard_stops(shards@[k], quantization, Some(e@)),
            None => shard_stops(shards@[k], quantization, None),
        },
{
    let checkpoint = Checkpoint::<T>::Quantized(shards, quantization);
    if 0 <= k < shards@.len() && (forall|i: int|
        0 <= i < k ==> shard_loads(#[trigger] shards@[i], quantization)) && !shard_loads(
        shards@[k],
        quantization,
    ) {
        assert(!model_loads(checkpoint));
        match r {
            Some(Err(e)) => {
                law_first_bad_file_stops(shards@, quantization, k, Some(e@));
            },
            None => {
                law_first_bad_file_stops(shards@, quantization, k, None);
            },
            _ => {},
        }
    } else if shards@.len() > 0 && checkpoint_loads(shards@, quantization) {
        assert(model_loads(checkpoint));
    }
}

} // verus!
