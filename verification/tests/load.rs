use safetensors::tensor::TensorView;
use safetensors::{serialize, Dtype};
use voxtral_weights::error::VoxtralError;
use voxtral_weights::files::find_safetensors_files;
use voxtral_weights::load::{
    load_model_weights, load_quantized_weights, load_standard_weights, Checkpoint, ModelWeights,
    ShardFile,
};
use voxtral_weights::quantization::QuantizationConfig;
use voxtral_weights::tensor::{Tensor, TensorValues};
use voxtral_weights::weight_map::WeightMap;

type Stored = (&'static str, Dtype, Vec<usize>, Vec<u8>);

const FOUR: QuantizationConfig = QuantizationConfig { bits: 4, group_size: 4 };

fn affine(q: u32, scale: u32, bias: u32) -> u32 {
    (q as f32 * f32::from_bits(scale) + f32::from_bits(bias)).to_bits()
}

fn file(tensors: &[Stored]) -> Vec<u8> {
    let views: Vec<(&str, TensorView<'_>)> = tensors
        .iter()
        .map(|(name, dtype, shape, data)| {
            (*name, TensorView::new(*dtype, shape.clone(), data).unwrap())
        })
        .collect();
    serialize(views, None).unwrap()
}

fn shard(path: &str, tensors: &[Stored]) -> ShardFile {
    ShardFile { path: path.to_string(), bytes: Ok(file(tensors)) }
}

fn singles(values: &[f32]) -> Vec<u8> {
    values.iter().flat_map(|v| v.to_le_bytes()).collect()
}

fn bf16_tensor(values: &[f32], shape: &[i64]) -> Tensor {
    let bits = values.iter().map(|&v| half::bf16::from_f32(v).to_bits()).collect();
    Tensor { values: TensorValues::BF16(bits), shape: shape.to_vec() }
}

fn i32_tensor(value: i32) -> Tensor {
    Tensor { values: TensorValues::I32(vec![value]), shape: vec![1] }
}

fn load(shards: Vec<ShardFile>) -> WeightMap<Tensor> {
    match load_quantized_weights(shards, &FOUR, &affine) {
        Some(Ok(weights)) => weights,
        other => panic!("{other:?}"),
    }
}

fn failure(shards: Vec<ShardFile>, quantization: &QuantizationConfig) -> VoxtralError {
    match load_quantized_weights(shards, quantization, &affine) {
        Some(Err(e)) => e,
        other => panic!("{other:?}"),
    }
}

fn sorted_names(weights: WeightMap<Tensor>) -> Vec<String> {
    let mut names: Vec<String> = weights.into_entries().into_iter().map(|e| e.0).collect();
    names.sort();
    names
}

fn quantized(prefix: [&'static str; 3]) -> Vec<Stored> {
    vec![
        (prefix[0], Dtype::U32, vec![1, 1], vec![0x21, 0x43, 0x65, 0x87]),
        (prefix[1], Dtype::F32, vec![1, 2], singles(&[1.0, 2.0])),
        (prefix[2], Dtype::F32, vec![1, 2], singles(&[0.0, 10.0])),
    ]
}

#[test]
fn the_parts_of_a_quantized_weight_are_merged() {
    let mut tensors = quantized(["l.weight", "l.scales", "l.biases"]);
    tensors.push(("norm.weight", Dtype::BF16, vec![2], vec![0x80, 0x3F, 0x00, 0x40]));
    let weights = load(vec![shard("/m/a.safetensors", &tensors)]);
    assert_eq!(weights.len(), 2);
    assert_eq!(
        weights.get("l.weight"),
        Some(&bf16_tensor(&[1.0, 2.0, 3.0, 4.0, 20.0, 22.0, 24.0, 26.0], &[1, 8]))
    );
    assert_eq!(weights.get("norm.weight"), Some(&bf16_tensor(&[1.0, 2.0], &[2])));
    assert_eq!(weights.get("l.scales"), None);
    assert_eq!(weights.get("l.biases"), None);
}

#[test]
fn biases_may_be_missing() {
    let mut tensors = quantized(["l.weight", "l.scales", "l.biases"]);
    tensors.pop();
    let weights = load(vec![shard("a", &tensors)]);
    assert_eq!(
        weights.get("l.weight"),
        Some(&bf16_tensor(&[1.0, 2.0, 3.0, 4.0, 10.0, 12.0, 14.0, 16.0], &[1, 8]))
    );
    assert_eq!(weights.len(), 1);
}

#[test]
fn unpaired_parts_pass_as_they_stand() {
    let tensors = vec![
        ("a.scales", Dtype::F32, vec![1, 1], singles(&[0.5])),
        ("b.biases", Dtype::F32, vec![1], singles(&[0.25])),
        ("c.weight", Dtype::I64, vec![1], 7i64.to_le_bytes().to_vec()),
        ("d.qweight", Dtype::I32, vec![1], 9i32.to_le_bytes().to_vec()),
    ];
    let weights = load(vec![shard("a", &tensors)]);
    assert_eq!(
        weights.get("a.scales"),
        Some(&Tensor { values: TensorValues::F32(vec![0.5f32.to_bits()]), shape: vec![1, 1] })
    );
    assert_eq!(
        weights.get("b.biases"),
        Some(&Tensor { values: TensorValues::F32(vec![0.25f32.to_bits()]), shape: vec![1] })
    );
    assert_eq!(
        weights.get("c.weight"),
        Some(&Tensor { values: TensorValues::I64(vec![7]), shape: vec![1] })
    );
    assert_eq!(weights.get("d.qweight"), Some(&i32_tensor(9)));
    assert_eq!(sorted_names(weights), vec!["a.scales", "b.biases", "c.weight", "d.qweight"]);
}

#[test]
fn the_last_file_wins() {
    let one = vec![
        ("x", Dtype::I32, vec![1], 1i32.to_le_bytes().to_vec()),
        ("y", Dtype::I32, vec![1], 2i32.to_le_bytes().to_vec()),
    ];
    let two = vec![
        ("y", Dtype::I32, vec![1], 3i32.to_le_bytes().to_vec()),
        ("z", Dtype::I32, vec![1], 4i32.to_le_bytes().to_vec()),
    ];
    let weights = load(vec![shard("1", &one), shard("2", &two)]);
    assert_eq!(weights.len(), 3);
    assert_eq!(weights.get("x"), Some(&i32_tensor(1)));
    assert_eq!(weights.get("y"), Some(&i32_tensor(3)));
    assert_eq!(weights.get("z"), Some(&i32_tensor(4)));
}

#[test]
fn scales_in_another_file_do_not_quantize() {
    let parts = quantized(["l.weight", "l.scales", "l.biases"]);
    let e = failure(vec![shard("1", &parts[..1]), shard("2", &parts[1..])], &FOUR);
    assert_eq!(
        e,
        VoxtralError::ModelLoad("Unsupported tensor dtype U32 for [1, 1]".to_string())
    );
}

#[test]
fn a_repeated_load_gives_the_same_weights() {
    let mut tensors = quantized(["l.weight", "l.scales", "l.biases"]);
    tensors.extend(quantized(["m.weight", "m.scales", "m.biases"]));
    let mut first = load(vec![shard("a", &tensors)]).into_entries();
    let mut second = load(vec![shard("a", &tensors)]).into_entries();
    first.sort_by(|a, b| a.0.cmp(&b.0));
    second.sort_by(|a, b| a.0.cmp(&b.0));
    assert_eq!(first, second);
    assert_eq!(first.len(), 2);
}

#[test]
fn the_qweight_layout_is_rejected() {
    let tensors = vec![
        ("layers.0.wq.scales", Dtype::F32, vec![1, 1], singles(&[0.5])),
        ("layers.0.wq.qweight", Dtype::I32, vec![1], vec![0; 4]),
    ];
    assert_eq!(
        failure(vec![shard("/m/q.safetensors", &tensors)], &FOUR),
        VoxtralError::ModelLoad(
            "Unsupported quantized tensor format for layers.0.wq in /m/q.safetensors. Found a .qweight tensor suffix instead of .weight. This loader only supports the packed layers.0.wq.weight + .scales [+ .biases] layout".to_string()
        )
    );
}

#[test]
fn a_weight_beside_a_qweight_is_used() {
    let mut tensors = quantized(["l.weight", "l.scales", "l.biases"]);
    tensors.push(("l.qweight", Dtype::I32, vec![1], 5i32.to_le_bytes().to_vec()));
    let weights = load(vec![shard("a", &tensors)]);
    assert_eq!(weights.get("l.qweight"), Some(&i32_tensor(5)));
    assert_eq!(sorted_names(weights), vec!["l.qweight", "l.weight"]);
}

#[test]
fn types_that_are_not_loaded_are_named() {
    let tensors = vec![("x", Dtype::F64, vec![1, 2], vec![0; 16])];
    assert_eq!(
        failure(vec![shard("a", &tensors)], &FOUR),
        VoxtralError::ModelLoad("Unsupported tensor dtype F64 for [1, 2]".to_string())
    );
    let tensors = vec![("x", Dtype::F8_E4M3, vec![2], vec![0; 2])];
    assert_eq!(
        failure(vec![shard("a", &tensors)], &FOUR),
        VoxtralError::ModelLoad("Unsupported tensor dtype F8_E4M3 for [2]".to_string())
    );
}

#[test]
fn an_unsupported_width_is_rejected() {
    let tensors = vec![
        ("l.weight", Dtype::U32, vec![1, 1], vec![0; 4]),
        ("l.scales", Dtype::F32, vec![1, 1], singles(&[1.0])),
    ];
    assert_eq!(
        failure(vec![shard("a", &tensors)], &QuantizationConfig { bits: 8, group_size: 4 }),
        VoxtralError::ModelLoad(
            "Unsupported quantization bits 8. Only 4-bit and 6-bit checkpoints are supported"
                .to_string()
        )
    );
}

#[test]
fn bytes_that_are_no_checkpoint_are_an_error() {
    let broken = |bytes: &[u8]| ShardFile { path: "/m/x".to_string(), bytes: Ok(bytes.to_vec()) };
    assert_eq!(
        failure(vec![broken(b"abc")], &FOUR),
        VoxtralError::Safetensors("Failed to parse /m/x: header too small".to_string())
    );
    assert_eq!(
        failure(vec![broken(&[200, 0, 0, 0, 0, 0, 0, 0, b'{', b'}'])], &FOUR),
        VoxtralError::Safetensors("Failed to parse /m/x: invalid header length".to_string())
    );
    assert_eq!(
        failure(vec![broken(&[255; 16])], &FOUR),
        VoxtralError::Safetensors("Failed to parse /m/x: header too large".to_string())
    );
    let mut longer = file(&[("x", Dtype::I32, vec![1], vec![0; 4])]);
    longer.push(0);
    assert_eq!(
        failure(vec![broken(&longer)], &FOUR),
        VoxtralError::Safetensors(
            "Failed to parse /m/x: incomplete metadata, file not fully covered".to_string()
        )
    );
}

#[test]
fn an_unread_file_stops_the_load() {
    let good = vec![("x", Dtype::I32, vec![1], vec![0; 4])];
    let unread = ShardFile {
        path: "2".to_string(),
        bytes: Err(VoxtralError::Io("permission denied".to_string())),
    };
    let broken = ShardFile { path: "3".to_string(), bytes: Ok(vec![]) };
    assert_eq!(
        failure(vec![shard("1", &good), unread, broken], &FOUR),
        VoxtralError::Io("permission denied".to_string())
    );
}

#[test]
fn sizes_that_cannot_be_computed_give_nothing() {
    let tensors = quantized(["l.weight", "l.scales", "l.biases"]);
    for quantization in [
        QuantizationConfig { bits: 0, group_size: 4 },
        QuantizationConfig { bits: 33, group_size: 4 },
        QuantizationConfig { bits: 4, group_size: usize::MAX },
    ] {
        assert!(load_quantized_weights(vec![shard("a", &tensors)], &quantization, &affine).is_none());
    }
    let plain = vec![("x", Dtype::I32, vec![1], vec![0; 4])];
    let odd = QuantizationConfig { bits: 0, group_size: usize::MAX };
    assert!(matches!(
        load_quantized_weights(vec![shard("a", &plain)], &odd, &affine),
        Some(Ok(_))
    ));
}

fn declaring(sizes: &[u64]) -> ShardFile {
    let mut start: u64 = 0;
    let mut items: Vec<String> = vec![];
    for (i, &size) in sizes.iter().enumerate() {
        let end = start + size;
        items.push(format!(
            "\"t{i}\":{{\"dtype\":\"U8\",\"shape\":[{size}],\"data_offsets\":[{start},{end}]}}"
        ));
        start = end;
    }
    let header = format!("{{{}}}", items.join(","));
    let mut bytes = (header.len() as u64).to_le_bytes().to_vec();
    bytes.extend_from_slice(header.as_bytes());
    ShardFile { path: "huge".to_string(), bytes: Ok(bytes) }
}

#[test]
fn a_declared_size_that_is_too_large_gives_nothing() {
    let most = (1u64 << 61) - 1;
    assert!(load_quantized_weights(vec![declaring(&[most; 8])], &FOUR, &affine).is_none());
    assert_eq!(
        failure(vec![declaring(&[most; 7])], &FOUR),
        VoxtralError::Safetensors(
            "Failed to parse huge: incomplete metadata, file not fully covered".to_string()
        )
    );
}

#[test]
fn no_files_hold_no_weights() {
    assert_eq!(load(vec![]).len(), 0);
}

#[test]
fn standard_files_are_laid_over_each_other() {
    let weights = load_standard_weights(vec![
        Ok(vec![("a".to_string(), 1), ("b".to_string(), 2), ("a".to_string(), 3)]),
        Ok(vec![("b".to_string(), 4)]),
    ]);
    match weights {
        Ok(weights) => {
            assert_eq!(weights.len(), 2);
            assert_eq!(weights.get("a"), Some(&3));
            assert_eq!(weights.get("b"), Some(&4));
        }
        Err(e) => panic!("{e:?}"),
    }
}

#[test]
fn the_first_failing_standard_file_counts() {
    let outcome = load_standard_weights(vec![
        Ok(vec![("a".to_string(), 1)]),
        Err(VoxtralError::Safetensors("second".to_string())),
        Err(VoxtralError::Io("third".to_string())),
    ]);
    match outcome {
        Err(e) => assert_eq!(e, VoxtralError::Safetensors("second".to_string())),
        Ok(weights) => panic!("{weights:?}"),
    }
}

#[test]
fn a_standard_checkpoint_is_routed() {
    let checkpoint = Checkpoint::Standard(vec![Ok(vec![
        ("layers.0.weight".to_string(), 1),
        ("acoustic_transformer.w".to_string(), 2),
        ("multimodal.audio_tokenizer.w".to_string(), 3),
    ])]);
    match load_model_weights("/m", checkpoint, &affine) {
        Some(Ok(ModelWeights::Standard(parts))) => {
            assert_eq!(parts.backbone.into_entries(), vec![("layers.0.weight".to_string(), 1)]);
            assert_eq!(
                parts.flow_matching.into_entries(),
                vec![("acoustic_transformer.w".to_string(), 2)]
            );
            assert_eq!(
                parts.codec.into_entries(),
                vec![("multimodal.audio_tokenizer.w".to_string(), 3)]
            );
        }
        other => panic!("{other:?}"),
    }
}

#[test]
fn a_quantized_checkpoint_is_routed() {
    let mut tensors = quantized(["layers.0.weight", "layers.0.scales", "layers.0.biases"]);
    tensors.push(("acoustic_transformer.w", Dtype::I32, vec![1], 2i32.to_le_bytes().to_vec()));
    tensors.push(("audio_tokenizer.w", Dtype::I32, vec![1], 3i32.to_le_bytes().to_vec()));
    let checkpoint: Checkpoint<()> = Checkpoint::Quantized(vec![shard("a", &tensors)], FOUR);
    match load_model_weights("/m", checkpoint, &affine) {
        Some(Ok(ModelWeights::Quantized(parts))) => {
            assert_eq!(
                parts.backbone.into_entries(),
                vec![(
                    "layers.0.weight".to_string(),
                    bf16_tensor(&[1.0, 2.0, 3.0, 4.0, 20.0, 22.0, 24.0, 26.0], &[1, 8])
                )]
            );
            assert_eq!(
                parts.flow_matching.into_entries(),
                vec![("acoustic_transformer.w".to_string(), i32_tensor(2))]
            );
            assert_eq!(
                parts.codec.into_entries(),
                vec![("audio_tokenizer.w".to_string(), i32_tensor(3))]
            );
        }
        other => panic!("{other:?}"),
    }
}

#[test]
fn a_checkpoint_without_files_is_an_error() {
    let expected = VoxtralError::ModelLoad("No safetensors files found in /m".to_string());
    let none: [Checkpoint<()>; 2] = [Checkpoint::Standard(vec![]), Checkpoint::Quantized(vec![], FOUR)];
    for checkpoint in none {
        match load_model_weights("/m", checkpoint, &affine) {
            Some(Err(e)) => assert_eq!(e, expected),
            other => panic!("{other:?}"),
        }
    }
}

#[test]
fn failures_reach_the_caller() {
    let checkpoint: Checkpoint<()> =
        Checkpoint::Standard(vec![Err(VoxtralError::Io("gone".to_string()))]);
    match load_model_weights("/m", checkpoint, &affine) {
        Some(Err(e)) => assert_eq!(e, VoxtralError::Io("gone".to_string())),
        other => panic!("{other:?}"),
    }
    let tensors = quantized(["l.weight", "l.scales", "l.biases"]);
    let odd = QuantizationConfig { bits: 0, group_size: 4 };
    let checkpoint: Checkpoint<()> = Checkpoint::Quantized(vec![shard("a", &tensors)], odd);
    assert!(load_model_weights("/m", checkpoint, &affine).is_none());
}

#[test]
fn nothing_beside_a_consolidated_checkpoint_has_influence() {
    let tensors = quantized(["l.weight", "l.scales", "l.biases"]);
    let listings: [Vec<Vec<u8>>; 3] = [
        vec![b"consolidated.safetensors".to_vec()],
        vec![b"consolidated.safetensors".to_vec(), b"model-00001-of-00001.safetensors".to_vec()],
        vec![b"a.safetensors".to_vec(), b"consolidated.safetensors".to_vec(), vec![0xFF]],
    ];
    for entries in listings {
        let names = find_safetensors_files("/m", true, &entries).unwrap();
        assert_eq!(names, vec![b"consolidated.safetensors".to_vec()]);
        let shards = names
            .iter()
            .map(|name| shard(&String::from_utf8(name.clone()).unwrap(), &tensors))
            .collect();
        let checkpoint: Checkpoint<()> = Checkpoint::Quantized(shards, FOUR);
        match load_model_weights("/m", checkpoint, &affine) {
            Some(Ok(ModelWeights::Quantized(parts))) => {
                assert_eq!(
                    parts.backbone.into_entries(),
                    vec![(
                        "l.weight".to_string(),
                        bf16_tensor(&[1.0, 2.0, 3.0, 4.0, 20.0, 22.0, 24.0, 26.0], &[1, 8])
                    )]
                );
                assert_eq!(parts.flow_matching.len(), 0);
                assert_eq!(parts.codec.len(), 0);
            }
            other => panic!("{other:?}"),
        }
    }
}

#[test]
fn the_same_files_end_alike() {
    let good = vec![("x", Dtype::I32, vec![1], 1i32.to_le_bytes().to_vec())];
    let broken = || ShardFile { path: "2".to_string(), bytes: Ok(vec![1, 2, 3]) };
    let load_twice = || -> Vec<VoxtralError> {
        (0..2).map(|_| failure(vec![shard("1", &good), broken()], &FOUR)).collect()
    };
    let errors = load_twice();
    assert_eq!(errors[0], errors[1]);
    assert_eq!(
        errors[0],
        VoxtralError::Safetensors("Failed to parse 2: header too small".to_string())
    );

    let standard = |entries: Vec<(&str, i32)>| {
        let entries = entries.into_iter().map(|(n, v)| (n.to_string(), v)).collect();
        match load_model_weights("/m", Checkpoint::Standard(vec![Ok(entries)]), &affine) {
            Some(Ok(ModelWeights::Standard(parts))) => {
                let mut backbone = parts.backbone.into_entries();
                backbone.sort();
                backbone
            }
            other => panic!("{other:?}"),
        }
    };
    assert_eq!(standard(vec![("a", 1), ("b", 2)]), standard(vec![("b", 2), ("a", 1)]));
}

#[test]
fn bytes_that_do_not_divide_into_elements_are_no_checkpoint() {
    for (dtype, len) in [("F32", 3), ("BF16", 1), ("I64", 4), ("U32", 2)] {
        let header = format!(
            "{{\"x\":{{\"dtype\":\"{dtype}\",\"shape\":[1],\"data_offsets\":[0,{len}]}}}}"
        );
        let mut bytes = (header.len() as u64).to_le_bytes().to_vec();
        bytes.extend_from_slice(header.as_bytes());
        bytes.resize(bytes.len() + len, 0);
        let odd = ShardFile { path: "odd".to_string(), bytes: Ok(bytes) };
        assert_eq!(
            failure(vec![odd], &FOUR),
            VoxtralError::Safetensors(
                "Failed to parse odd: invalid shape, data type, or offset for tensor".to_string()
            )
        );
    }
}
