use voxtral_weights::route::{component_of, partition_weights, Component};
use voxtral_weights::weight_map::WeightMap;

#[test]
fn prefixes_decide_the_component() {
    let cases = [
        ("acoustic_transformer.layers.0.weight", Component::FlowMatching),
        ("multimodal.acoustic_transformer.layers.0.weight", Component::FlowMatching),
        ("audio_tokenizer.decoder.weight", Component::Codec),
        ("multimodal.audio_tokenizer.decoder.weight", Component::Codec),
        ("layers.0.attention.wq.weight", Component::Backbone),
        ("norm.weight", Component::Backbone),
        ("output.weight", Component::Backbone),
        ("tok_embeddings.weight", Component::Backbone),
        ("mm_audio_embeddings.tok_embeddings.weight", Component::Backbone),
        ("acoustic_transformer", Component::Backbone),
        ("layers.acoustic_transformer.weight", Component::Backbone),
        ("audio_tokenizers.weight", Component::Backbone),
        ("multimodal.other", Component::Backbone),
        ("", Component::Backbone),
    ];
    for (name, component) in cases {
        assert_eq!(component_of(name), component, "{name}");
    }
}

#[test]
fn every_weight_is_in_exactly_one_partition() {
    let names = [
        "layers.0.weight",
        "acoustic_transformer.x",
        "audio_tokenizer.y",
        "norm.weight",
        "multimodal.audio_tokenizer.z",
    ];
    let mut weights = WeightMap::new();
    for (i, name) in names.iter().enumerate() {
        weights.insert(name.to_string(), i);
    }
    let parts = partition_weights(weights);
    assert_eq!(parts.backbone.len(), 2);
    assert_eq!(parts.flow_matching.len(), 1);
    assert_eq!(parts.codec.len(), 2);
    for (i, name) in names.iter().enumerate() {
        let found: Vec<Option<&usize>> = vec![
            parts.backbone.get(name),
            parts.flow_matching.get(name),
            parts.codec.get(name),
        ];
        let hits: Vec<&usize> = found.into_iter().flatten().collect();
        assert_eq!(hits, vec![&i]);
    }
    assert_eq!(parts.codec.get("multimodal.audio_tokenizer.z"), Some(&4));
}
