//! Routing of weights to the parts of the model.

use vstd::prelude::*;

use crate::text::starts_with;
use crate::weight_map::WeightMap;

verus! {

/// A part of the model.
#[derive(Debug, Clone, Copy, PartialEq, Eq, Structural)]
pub enum Component {
    /// The language model.
    Backbone,
    /// The flow-matching transformer, which makes acoustic codes.
    FlowMatching,
    /// The audio codec.
    Codec,
}

/// The part of the model that a weight belongs to. Both spellings of the
/// prefixes occur, with and without `multimodal.` in front; whatever has none
/// of them belongs to the backbone.
pub open spec fn component(name: Seq<char>) -> Component {
    if crate::text::has_prefix(name, "acoustic_transformer."@) || crate::text::has_prefix(
        name,
        "multimodal.acoustic_transformer"@,
    ) {
        Component::FlowMatching
    } else if crate::text::has_prefix(name, "audio_tokenizer."@) || crate::text::has_prefix(
        name,
        "multimodal.audio_tokenizer"@,
    ) {
        Component::Codec
    } else {
        Component::Backbone
    }
}

/// The names of the weights of a part.
pub open spec fn component_names(part: Component) -> Set<Seq<char>> {
    Set::new(|n: Seq<char>| component(n) == part)
}

/// Weights by the part of the model that they belong to.
#[derive(Debug)]
pub struct WeightPartitions<T> {
    pub backbone: WeightMap<T>,
    pub flow_matching: WeightMap<T>,
    pub codec: WeightMap<T>,
}

impl<T> WeightPartitions<T> {
    /// The weights of a part.
    pub open spec fn of(self, part: Component) -> Map<Seq<char>, T> {
        match part {
            Component::Backbone => self.backbone@,
            Component::FlowMatching => self.flow_matching@,
            Component::Codec => self.codec@,
        }
    }

    /// The parts hold the given weights, each weight where it belongs.
    pub open spec fn partitions(self, weights: Map<Seq<char>, T>) -> bool {
        forall|part: Component| #[trigger]
            self.of(part) == weights.restrict(component_names(part))
    }
}

/// Tells which part of the model a weight belongs to.
pub fn component_of(name: &str) -> (r: Component)
    ensures
        r == component(name@),
{
    if starts_with(name, "acoustic_transformer.") || starts_with(
        name,
        "multimodal.acoustic_transformer",
    ) {
        Component::FlowMatching
    } else if starts_with(name, "audio_tokenizer.") || starts_with(
        name,
        "multimodal.audio_tokenizer",
    ) {
        Component::Codec
    } else {
        Component::Backbone
    }
}

proof fn lemma_restrict_insert<T>(
    weights: Map<Seq<char>, T>,
    part: Component,
    name: Seq<char>,
    weight: T,
)
    ensures
        weights.insert(name, weight).restrict(component_names(part)) == if component(name) == part {
            weights.restrict(component_names(part)).insert(name, weight)
        } else {
            weights.restrict(component_names(part))
        },
{
    if component(name) == part {
        assert(weights.insert(name, weight).restrict(component_names(part)) =~= weights.restrict(
            component_names(part),
        ).insert(name, weight));
    } else {
        assert(weights.insert(name, weight).restrict(component_names(part)) =~= weights.restrict(
            component_names(part),
        ));
    }
}

/// Parts weights by the part of the model that they belong to.
pub fn partition_weights<T>(weights: WeightMap<T>) -> (r: WeightPartitions<T>)
    ensures
        r.partitions(weights@),
{
    let entries = weights.into_entries();
    let ghost all = entries@;
    let mut backbone: WeightMap<T> = WeightMap::new();
    let mut flow_matching: WeightMap<T> = WeightMap::new();
    let mut codec: WeightMap<T> = WeightMap::new();
    let ghost mut taken: Map<Seq<char>, T> = Map::empty();
    for entry in it: entries
        invariant
            it.seq() == all,
            taken == crate::weight_map::overlay(Map::empty(), all.take(it.index() as int)),
            backbone@ == taken.restrict(component_names(Component::Backbone)),
            flow_matching@ == taken.restrict(component_names(Component::FlowMatching)),
            codec@ == taken.restrict(component_names(Component::Codec)),
    {
        proof {
            let i = it.index() as int;
            assert(all.take(i + 1).drop_last() =~= all.take(i));
            lemma_restrict_insert(taken, Component::Backbone, entry.0@, entry.1);
            lemma_restrict_insert(taken, Component::FlowMatching, entry.0@, entry.1);
            lemma_restrict_insert(taken, Component::Codec, entry.0@, entry.1);
            taken = taken.insert(entry.0@, entry.1);
        }
        match component_of(entry.0.as_str()) {
            Component::Backbone => {
                backbone.insert(entry.0, entry.1);
            },
            Component::FlowMatching => {
                flow_matching.insert(entry.0, entry.1);
            },
            Component::Codec => {
                codec.insert(entry.0, entry.1);
            },
        }
    }
    assert(all.take(all.len() as int) =~= all);
    WeightPartitions { backbone, flow_matching, codec }
}

/// Every weight is in exactly one part, and a part holds nothing else.
pub proof fn law_partition_exact<T>(
    partitions: WeightPartitions<T>,
    weights: Map<Seq<char>, T>,
    name: Seq<char>,
    part: Component,
)
    requires
        partitions.partitions(weights),
    ensures
        partitions.of(part).dom().contains(name) <==> weights.dom().contains(name) && component(name)
            == part,
        partitions.of(part).dom().contains(name) ==> partitions.of(part)[name] == weights[name],
{
}

/// Whatever stands behind a prefix, the prefix decides the part of the model.
pub proof fn law_prefix_decides_component(rest: Seq<char>)
    ensures
        component("acoustic_transformer."@ + rest) is FlowMatching,
        component("multimodal.acoustic_transformer"@ + rest) is FlowMatching,
        component("audio_tokenizer."@ + rest) is Codec,
        component("multimodal.audio_tokenizer"@ + rest) is Codec,
{
    reveal_strlit("acoustic_transformer.");
    reveal_strlit("multimodal.acoustic_transformer");
    reveal_strlit("audio_tokenizer.");
    reveal_strlit("multimodal.audio_tokenizer");
    let a = "acoustic_transformer."@ + rest;
    let b = "multimodal.acoustic_transformer"@ + rest;
    let c = "audio_tokenizer."@ + rest;
    let d = "multimodal.audio_tokenizer"@ + rest;
    crate::text::law_prefix(a, "acoustic_transformer."@);
    crate::text::law_prefix(b, "multimodal.acoustic_transformer"@);
    crate::text::law_prefix(c, "audio_tokenizer."@);
    crate::text::law_prefix(d, "multimodal.audio_tokenizer"@);
    assert(c[1] != "acoustic_transformer."@[1]);
    assert(c[0] != "multimodal.acoustic_transformer"@[0]);
    assert(d[0] != "acoustic_transformer."@[0]);
    assert(d[12] != "multimodal.acoustic_transformer"@[12]);
}

/// A name with none of the prefixes belongs to the backbone.
pub proof fn law_other_names_are_backbone(name: Seq<char>)
    requires
        forall|rest: Seq<char>| #[trigger] ("acoustic_transformer."@ + rest) != name,
        forall|rest: Seq<char>| #[trigger] ("multimodal.acoustic_transformer"@ + rest) != name,
        forall|rest: Seq<char>| #[trigger] ("audio_tokenizer."@ + rest) != name,
        forall|rest: Seq<char>| #[trigger] ("multimodal.audio_tokenizer"@ + rest) != name,
    ensures
        component(name) is Backbone,
{
    crate::text::law_prefix(name, "acoustic_transformer."@);
    crate::text::law_prefix(name, "multimodal.acoustic_transformer"@);
    crate::text::law_prefix(name, "audio_tokenizer."@);
    crate::text::law_prefix(name, "multimodal.audio_tokenizer"@);
}

/// A weight under one of the prefixes goes to the flow-matching transformer or
/// to the codec, and nowhere else.
pub proof fn law_prefixed_weights_routed<T>(
    parts: WeightPartitions<T>,
    weights: Map<Seq<char>, T>,
    rest: Seq<char>,
)
    requires
        parts.partitions(weights),
    ensures
        forall|name: Seq<char>|
            name == "acoustic_transformer."@ + rest || name == "multimodal.acoustic_transformer"@
                + rest ==> {
                &&& #[trigger] weights.dom().contains(name)
                    == parts.flow_matching@.dom().contains(name)
                &&& weights.dom().contains(name) ==> parts.flow_matching@[name] == weights[name]
                &&& !parts.codec@.dom().contains(name)
                &&& !parts.backbone@.dom().contains(name)
            },
        forall|name: Seq<char>|
            name == "audio_tokenizer."@ + rest || name == "multimodal.audio_tokenizer"@ + rest
                ==> {
                &&& #[trigger] weights.dom().contains(name) == parts.codec@.dom().contains(name)
                &&& weights.dom().contains(name) ==> parts.codec@[name] == weights[name]
                &&& !parts.flow_matching@.dom().contains(name)
                &&& !parts.backbone@.dom().contains(name)
            },
{
    law_prefix_decides_component(rest);
    assert(parts.of(Component::FlowMatching) == weights.restrict(
        component_names(Component::FlowMatching),
    ));
    assert(parts.of(Component::Codec) == weights.restrict(component_names(Component::Codec)));
    assert(parts.of(Component::Backbone) == weights.restrict(component_names(Component::Backbone)));
}

/// A weight with none of the prefixes goes to the backbone, and nowhere else.
pub proof fn law_other_weights_routed<T>(
    parts: WeightPartitions<T>,
    weights: Map<Seq<char>, T>,
    name: Seq<char>,
)
    requires
        parts.partitions(weights),
        forall|rest: Seq<char>| #[trigger] ("acoustic_transformer."@ + rest) != name,
        forall|rest: Seq<char>| #[trigger] ("multimodal.acoustic_transformer"@ + rest) != name,
        forall|rest: Seq<char>| #[trigger] ("audio_tokenizer."@ + rest) != name,
        forall|rest: Seq<char>| #[trigger] ("multimodal.audio_tokenizer"@ + rest) != name,
    ensures
        parts.backbone@.dom().contains(name) == weights.dom().contains(name),
        weights.dom().contains(name) ==> parts.backbone@[name] == weights[name],
        !parts.flow_matching@.dom().contains(name),
        !parts.codec@.dom().contains(name),
{
    law_other_names_are_backbone(name);
    assert(parts.of(Component::FlowMatching) == weights.restrict(
        component_names(Component::FlowMatching),
    ));
    assert(parts.of(Component::Codec) == weights.restrict(component_names(Component::Codec)));
    assert(parts.of(Component::Backbone) == weights.restrict(component_names(Component::Backbone)));
}

} // verus!
