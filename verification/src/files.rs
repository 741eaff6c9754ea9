//! Choice of the checkpoint files of a model directory.
//!
//! File names are held as bytes, since they need not be valid UTF-8.

use vstd::prelude::*;

use crate::error::VoxtralError;
use crate::text::{starts_with, strip_suffix, utf8_text};

verus! {

/// A rule by which files are chosen.
#[derive(Debug, Clone, Copy, PartialEq, Eq, Structural)]
pub enum FileRule {
    /// Files of a sharded checkpoint, `model-*.safetensors`.
    Shard,
    /// Files with the extension `safetensors`.
    Extension,
}

impl FileRule {
    /// Whether a file of the given name is chosen. A dot at the start of a
    /// name begins no extension.
    pub open spec fn accepts(self, name: Seq<u8>) -> bool {
        match self {
            FileRule::Shard => crate::text::utf8_decoded(name) matches Some(text)
                && crate::text::has_prefix(text, "model-"@) && crate::text::has_suffix(
                text,
                ".safetensors"@,
            ),
            FileRule::Extension => {
                let dotted = vstd::utf8::encode_utf8(".safetensors"@);
                dotted.is_suffix_of(name) && dotted.len() < name.len()
            },
        }
    }
}

/// File names as sequences of bytes.
pub open spec fn name_bytes(names: Seq<Vec<u8>>) -> Seq<Seq<u8>> {
    names.map_values(|n: Vec<u8>| n@)
}

/// The names that a rule accepts, in their order.
pub open spec fn accepted(names: Seq<Seq<u8>>, rule: FileRule) -> Seq<Seq<u8>> {
    names.filter(|n: Seq<u8>| rule.accepts(n))
}

/// The order of names: byte by byte, and a name before its continuations.
pub open spec fn name_le(a: Seq<u8>, b: Seq<u8>) -> bool
    decreases a.len(),
{
    if a.len() == 0 {
        true
    } else if b.len() == 0 {
        false
    } else {
        a[0] < b[0] || (a[0] == b[0] && name_le(a.drop_first(), b.drop_first()))
    }
}

/// The names are in order.
pub open spec fn in_order(names: Seq<Seq<u8>>) -> bool {
    forall|i: int, j: int|
        0 <= i <= j < names.len() ==> name_le(#[trigger] names[i], #[trigger] names[j])
}

/// `sorted` holds the same names as `names`, in order.
pub open spec fn sorts(sorted: Seq<Seq<u8>>, names: Seq<Seq<u8>>) -> bool {
    in_order(sorted) && sorted.to_multiset() == names.to_multiset()
}

/// The name of a checkpoint in a single file.
pub open spec fn consolidated_name() -> Seq<u8> {
    vstd::utf8::encode_utf8("consolidated.safetensors"@)
}

/// `names` are the checkpoint files of a directory with the given entries.
pub open spec fn chooses(
    consolidated_exists: bool,
    entries: Seq<Seq<u8>>,
    names: Seq<Seq<u8>>,
) -> bool {
    let shards = accepted(entries, FileRule::Shard);
    let files = accepted(entries, FileRule::Extension);
    &&& names.len() > 0
    &&& if consolidated_exists {
        names == seq![consolidated_name()]
    } else if shards.len() > 0 {
        sorts(names, shards)
    } else {
        sorts(names, files)
    }
}

fn ends_with_bytes(name: &[u8], suffix: &[u8]) -> (r: bool)
    ensures
        r == suffix@.is_suffix_of(name@),
{
    let len = name.len();
    let n = suffix.len();
    if len < n {
        return false;
    }
    let start = len - n;
    for i in 0..n
        invariant
            len == name@.len(),
            n == suffix@.len(),
            start + n == len,
            forall|j: int| 0 <= j < i ==> name@[start + j] == suffix@[j],
    {
        if name[start + i] != suffix[i] {
            return false;
        }
    }
    true
}

fn rule_accepts(rule: FileRule, name: &[u8]) -> (r: bool)
    ensures
        r == rule.accepts(name@),
{
    match rule {
        FileRule::Shard => match utf8_text(name) {
            Some(text) => starts_with(text, "model-") && strip_suffix(
                text,
                ".safetensors",
            ).is_some(),
            None => false,
        },
        FileRule::Extension => {
            let dotted = ".safetensors".as_bytes();
            ends_with_bytes(name, dotted) && dotted.len() < name.len()
        },
    }
}

fn not_after(a: &[u8], b: &[u8]) -> (r: bool)
    ensures
        r == name_le(a@, b@),
{
    let mut i: usize = 0;
    assert(a@.skip(0) =~= a@);
    assert(b@.skip(0) =~= b@);
    while i < a.len()
        invariant
            i <= a@.len(),
            i <= b@.len(),
            name_le(a@, b@) == name_le(a@.skip(i as int), b@.skip(i as int)),
        decreases a@.len() - i,
    {
        if i >= b.len() || a[i] > b[i] {
            return false;
        }
        if a[i] < b[i] {
            return true;
        }
        proof {
            assert(a@.skip(i as int).drop_first() =~= a@.skip(i + 1));
            assert(b@.skip(i as int).drop_first() =~= b@.skip(i + 1));
        }
        i = i + 1;
    }
    true
}

proof fn lemma_name_le_total(a: Seq<u8>, b: Seq<u8>)
    ensures
        name_le(a, b) || name_le(b, a),
    decreases a.len(),
{
    if a.len() > 0 && b.len() > 0 && a[0] == b[0] {
        lemma_name_le_total(a.drop_first(), b.drop_first());
    }
}

proof fn lemma_name_le_transitive(a: Seq<u8>, b: Seq<u8>, c: Seq<u8>)
    requires
        name_le(a, b),
        name_le(b, c),
    ensures
        name_le(a, c),
    decreases a.len(),
{
    if a.len() > 0 && b.len() > 0 && c.len() > 0 && a[0] == b[0] && b[0] == c[0] {
        lemma_name_le_transitive(a.drop_first(), b.drop_first(), c.drop_first());
    }
}

proof fn lemma_name_le_antisymmetric(a: Seq<u8>, b: Seq<u8>)
    requires
        name_le(a, b),
        name_le(b, a),
    ensures
        a == b,
    decreases a.len(),
{
    if a.len() > 0 && b.len() > 0 {
        lemma_name_le_antisymmetric(a.drop_first(), b.drop_first());
        assert(a =~= seq![a[0]] + a.drop_first());
    }
}

/// Puts a name among names that are in order, behind those that are not after
/// it.
fn insert_in_order(names: &mut Vec<Vec<u8>>, name: Vec<u8>)
    requires
        in_order(name_bytes(old(names)@)),
    ensures
        in_order(name_bytes(final(names)@)),
        name_bytes(final(names)@).to_multiset() == name_bytes(old(names)@).to_multiset().insert(
            name@,
        ),
{
    let ghost before = name_bytes(names@);
    let mut at: usize = names.len();
    while at > 0 && !not_after(&names[at - 1], &name)
        invariant
            before == name_bytes(names@),
            in_order(before),
            at <= names@.len(),
            forall|j: int| at <= j < before.len() ==> name_le(name@, #[trigger] before[j]),
        decreases at,
    {
        proof {
            lemma_name_le_total(name@, before[at - 1]);
        }
        at = at - 1;
    }
    proof {
        let after = before.insert(at as int, name@);
        assert forall|i: int, j: int| 0 <= i <= j < after.len() implies name_le(
            #[trigger] after[i],
            #[trigger] after[j],
        ) by {
            lemma_name_le_total(name@, name@);
            if i < at && j == at {
                lemma_name_le_transitive(before[i], before[at - 1], name@);
            }
        }
        vstd::seq_lib::to_multiset_insert(before, at as int, name@);
    }
    let ghost inserted = name@;
    names.insert(at, name);
    assert(name_bytes(names@) =~= before.insert(at as int, inserted));
}

/// Chooses files by a rule, and sorts their names.
fn select(entries: &Vec<Vec<u8>>, rule: FileRule) -> (r: Vec<Vec<u8>>)
    ensures
        sorts(name_bytes(r@), accepted(name_bytes(entries@), rule)),
{
    let ghost all = name_bytes(entries@);
    let mut names: Vec<Vec<u8>> = Vec::new();
    proof {
        reveal(Seq::filter);
        assert(name_bytes(names@) =~= accepted(all.take(0), rule));
    }
    for i in 0..entries.len()
        invariant
            all == name_bytes(entries@),
            sorts(name_bytes(names@), accepted(all.take(i as int), rule)),
    {
        proof {
            reveal(Seq::filter);
            assert(all.take(i + 1).drop_last() =~= all.take(i as int));
            vstd::seq_lib::to_multiset_build(
                accepted(all.take(i as int), rule),
                entries@[i as int]@,
            );
        }
        if rule_accepts(rule, &entries[i]) {
            let name = entries[i].clone();
            insert_in_order(&mut names, name);
        }
    }
    assert(all.take(all.len() as int) =~= all);
    names
}

fn bytes_of(text: &str) -> (r: Vec<u8>)
    ensures
        r@ == vstd::utf8::encode_utf8(text@),
{
    let bytes = text.as_bytes();
    let mut v: Vec<u8> = Vec::new();
    for i in 0..bytes.len()
        invariant
            v@ == bytes@.take(i as int),
    {
        v.push(bytes[i]);
    }
    v
}

/// Chooses the checkpoint files among the names of a directory's entries.
///
/// A consolidated checkpoint is taken alone; otherwise the files of a sharded
/// one, in order; otherwise all files with the extension, in order.
/// `model_dir` is for messages.
pub fn find_safetensors_files(
    model_dir: &str,
    consolidated_exists: bool,
    entries: &Vec<Vec<u8>>,
) -> (r: Result<Vec<Vec<u8>>, VoxtralError>)
    ensures
        ({
            let shards = accepted(name_bytes(entries@), FileRule::Shard);
            let files = accepted(name_bytes(entries@), FileRule::Extension);
            match r {
                Ok(names) => chooses(
                    consolidated_exists,
                    name_bytes(entries@),
                    name_bytes(names@),
                ),
                Err(e) => {
                    &&& !consolidated_exists && shards.len() == 0 && files.len() == 0
                    &&& e@ == crate::error::no_candidates_error(model_dir@)
                },
            }
        }),
{
    if consolidated_exists {
        let mut names: Vec<Vec<u8>> = Vec::new();
        names.push(bytes_of("consolidated.safetensors"));
        assert(name_bytes(names@) =~= seq![consolidated_name()]);
        return Ok(names);
    }
    let shards = select(entries, FileRule::Shard);
    proof {
        lemma_sorts_len(name_bytes(shards@), accepted(name_bytes(entries@), FileRule::Shard));
    }
    if shards.len() > 0 {
        return Ok(shards);
    }
    let files = select(entries, FileRule::Extension);
    proof {
        lemma_sorts_len(name_bytes(files@), accepted(name_bytes(entries@), FileRule::Extension));
    }
    if files.len() == 0 {
        return Err(VoxtralError::no_candidates(model_dir));
    }
    Ok(files)
}

proof fn lemma_sorts_len(sorted: Seq<Seq<u8>>, names: Seq<Seq<u8>>)
    requires
        sorts(sorted, names),
    ensures
        sorted.len() == names.len(),
{
    vstd::seq_lib::to_multiset_len(sorted);
    vstd::seq_lib::to_multiset_len(names);
}

/// Names have one order only.
pub proof fn law_sorted_unique(a: Seq<Seq<u8>>, b: Seq<Seq<u8>>)
    requires
        in_order(a),
        in_order(b),
        a.to_multiset() == b.to_multiset(),
    ensures
        a == b,
    decreases a.len(),
{
    vstd::seq_lib::to_multiset_len(a);
    vstd::seq_lib::to_multiset_len(b);
    if a.len() > 0 {
        let x = a.last();
        let y = b.last();
        vstd::seq_lib::to_multiset_contains(a, x);
        vstd::seq_lib::to_multiset_contains(b, x);
        vstd::seq_lib::to_multiset_contains(a, y);
        vstd::seq_lib::to_multiset_contains(b, y);
        assert(name_le(b[b.index_of(x)], y));
        assert(name_le(a[a.index_of(y)], x));
        lemma_name_le_antisymmetric(x, y);
        vstd::seq_lib::to_multiset_remove(a, a.len() - 1);
        vstd::seq_lib::to_multiset_remove(b, b.len() - 1);
        law_sorted_unique(a.drop_last(), b.drop_last());
        assert(a =~= a.drop_last().push(x));
    }
}

proof fn lemma_accepted_count(names: Seq<Seq<u8>>, rule: FileRule, n: Seq<u8>)
    ensures
        accepted(names, rule).to_multiset().count(n) == if rule.accepts(n) {
            names.to_multiset().count(n)
        } else {
            0
        },
    decreases names.len(),
{
    reveal(Seq::filter);
    if names.len() == 0 {
        vstd::seq_lib::to_multiset_len(names);
    } else {
        let front = names.drop_last();
        let last = names.last();
        lemma_accepted_count(front, rule, n);
        assert(names =~= front.push(last));
        vstd::seq_lib::to_multiset_build(front, last);
        vstd::seq_lib::to_multiset_build(accepted(front, rule), last);
    }
}

/// The order in which a directory lists its entries makes no difference to the
/// files that a rule chooses, nor to their order.
pub proof fn law_listing_order(
    a: Seq<Seq<u8>>,
    b: Seq<Seq<u8>>,
    rule: FileRule,
    from_a: Seq<Seq<u8>>,
    from_b: Seq<Seq<u8>>,
)
    requires
        a.to_multiset() == b.to_multiset(),
        sorts(from_a, accepted(a, rule)),
        sorts(from_b, accepted(b, rule)),
    ensures
        from_a == from_b,
{
    assert forall|n: Seq<u8>| #[trigger] from_a.to_multiset().count(n)
        == from_b.to_multiset().count(n) by {
        lemma_accepted_count(a, rule, n);
        lemma_accepted_count(b, rule, n);
    }
    assert(from_a.to_multiset() =~= from_b.to_multiset());
    law_sorted_unique(from_a, from_b);
}

/// With a consolidated checkpoint present, nothing else in the directory has
/// any influence: the same file is chosen whatever else is listed.
pub proof fn law_consolidated_alone(
    a: Seq<Seq<u8>>,
    b: Seq<Seq<u8>>,
    from_a: Seq<Seq<u8>>,
    from_b: Seq<Seq<u8>>,
)
    requires
        chooses(true, a, from_a),
        chooses(true, b, from_b),
    ensures
        from_a == from_b,
        from_a == seq![vstd::utf8::encode_utf8("consolidated.safetensors"@)],
{
}

proof fn lemma_encode_concat(a: Seq<char>, b: Seq<char>)
    ensures
        vstd::utf8::encode_utf8(a + b) == vstd::utf8::encode_utf8(a) + vstd::utf8::encode_utf8(b),
    decreases a.len(),
{
    if a.len() == 0 {
        assert(a + b =~= b);
    } else {
        assert((a + b).drop_first() =~= a.drop_first() + b);
        lemma_encode_concat(a.drop_first(), b);
    }
    assert(vstd::utf8::encode_utf8(a + b) =~= vstd::utf8::encode_utf8(a)
        + vstd::utf8::encode_utf8(b));
}

/// A file counts as a shard exactly where its name is the text `model-`,
/// anything, and `.safetensors`.
pub proof fn law_shard_names(name: Seq<u8>)
    ensures
        FileRule::Shard.accepts(name) <==> exists|middle: Seq<char>|
            name == vstd::utf8::encode_utf8(#[trigger] ("model-"@ + middle + ".safetensors"@)),
{
    reveal_strlit("model-");
    reveal_strlit(".safetensors");
    if FileRule::Shard.accepts(name) {
        let text = crate::text::utf8_decoded(name)->0;
        crate::text::law_utf8(name, text);
        let n = text.len() as int;
        assert(text.take(6) =~= "model-"@);
        assert(text.subrange(n - 12, n) =~= ".safetensors"@);
        if n < 18 {
            assert(text.take(6)[5] == '-');
            assert(text.subrange(n - 12, n)[17 - n] == ".safetensors"@[17 - n]);
            assert(false);
        }
        let middle = text.subrange(6, n - 12);
        assert(text =~= "model-"@ + middle + ".safetensors"@);
    }
    if exists|middle: Seq<char>|
        name == vstd::utf8::encode_utf8(#[trigger] ("model-"@ + middle + ".safetensors"@)) {
        let middle = choose|middle: Seq<char>|
            name == vstd::utf8::encode_utf8(#[trigger] ("model-"@ + middle + ".safetensors"@));
        let text = "model-"@ + middle + ".safetensors"@;
        crate::text::law_utf8(name, text);
        crate::text::law_prefix(text, "model-"@);
        crate::text::law_suffix(text, ".safetensors"@);
        assert(text =~= "model-"@ + (middle + ".safetensors"@));
        assert(text == ("model-"@ + middle) + ".safetensors"@);
    }
}

/// A file has the extension exactly where its name is something, and the bytes
/// of `.safetensors` behind it.
pub proof fn law_extension_names(name: Seq<u8>)
    ensures
        FileRule::Extension.accepts(name) <==> exists|front: Seq<u8>|
            front.len() > 0 && name == #[trigger] (front + vstd::utf8::encode_utf8(
                ".safetensors"@,
            )),
{
    let dotted = vstd::utf8::encode_utf8(".safetensors"@);
    if FileRule::Extension.accepts(name) {
        let front = name.take(name.len() - dotted.len());
        assert(name =~= front + dotted);
    }
    if exists|front: Seq<u8>| front.len() > 0 && name == #[trigger] (front + dotted) {
        assert(name.subrange(name.len() - dotted.len(), name.len() as int) =~= dotted);
    }
}

/// The bytes of names are those of each name, in their order.
pub proof fn law_name_bytes(names: Seq<Vec<u8>>)
    ensures
        name_bytes(names).len() == names.len(),
        forall|i: int| 0 <= i < names.len() ==> #[trigger] name_bytes(names)[i] == names[i]@,
{
}

proof fn lemma_accepted_contains(names: Seq<Seq<u8>>, rule: FileRule, n: Seq<u8>)
    ensures
        accepted(names, rule).contains(n) <==> names.contains(n) && rule.accepts(n),
{
    lemma_accepted_count(names, rule, n);
    vstd::seq_lib::to_multiset_contains(names, n);
    vstd::seq_lib::to_multiset_contains(accepted(names, rule), n);
}

/// A rule chooses nothing exactly where it accepts none of the names.
pub proof fn law_nothing_accepted(names: Seq<Seq<u8>>, rule: FileRule)
    ensures
        accepted(names, rule).len() == 0 <==> forall|n: Seq<u8>| #[trigger]
            names.contains(n) ==> !rule.accepts(n),
{
    if accepted(names, rule).len() == 0 {
        assert forall|n: Seq<u8>| #[trigger] names.contains(n) implies !rule.accepts(n) by {
            lemma_accepted_contains(names, rule, n);
        }
    } else {
        let n = accepted(names, rule)[0];
        assert(accepted(names, rule).contains(n));
        lemma_accepted_contains(names, rule, n);
    }
}

proof fn lemma_sorts_counts(sorted: Seq<Seq<u8>>, names: Seq<Seq<u8>>, rule: FileRule, n: Seq<u8>)
    requires
        sorts(sorted, accepted(names, rule)),
    ensures
        sorted.contains(n) <==> names.contains(n) && rule.accepts(n),
        rule.accepts(n) ==> sorted.to_multiset().count(n) == names.to_multiset().count(n),
{
    lemma_accepted_count(names, rule, n);
    lemma_accepted_contains(names, rule, n);
    vstd::seq_lib::to_multiset_contains(sorted, n);
    vstd::seq_lib::to_multiset_contains(accepted(names, rule), n);
}

/// Where there is no consolidated file but a shard, the shards are chosen, as
/// often as they are listed, and nothing else.
pub proof fn law_shards_chosen(
    entries: Seq<Seq<u8>>,
    names: Seq<Seq<u8>>,
    some: Seq<char>,
    n: Seq<u8>,
)
    requires
        chooses(false, entries, names),
        entries.contains(vstd::utf8::encode_utf8("model-"@ + some + ".safetensors"@)),
    ensures
        names.contains(n) <==> entries.contains(n) && exists|middle: Seq<char>|
            n == vstd::utf8::encode_utf8(#[trigger] ("model-"@ + middle + ".safetensors"@)),
        names.contains(n) ==> names.to_multiset().count(n) == entries.to_multiset().count(n),
{
    let shard = vstd::utf8::encode_utf8("model-"@ + some + ".safetensors"@);
    law_shard_names(shard);
    law_nothing_accepted(entries, FileRule::Shard);
    law_shard_names(n);
    lemma_sorts_counts(names, entries, FileRule::Shard, n);
}

/// Where there is neither a consolidated file nor a shard, every file with the
/// extension is chosen, as often as it is listed, and nothing else.
pub proof fn law_fallback_chosen(entries: Seq<Seq<u8>>, names: Seq<Seq<u8>>, n: Seq<u8>)
    requires
        chooses(false, entries, names),
        forall|middle: Seq<char>|
            !entries.contains(
                vstd::utf8::encode_utf8(#[trigger] ("model-"@ + middle + ".safetensors"@)),
            ),
    ensures
        names.contains(n) <==> entries.contains(n) && exists|front: Seq<u8>|
            front.len() > 0 && n == #[trigger] (front + vstd::utf8::encode_utf8(".safetensors"@)),
        names.contains(n) ==> names.to_multiset().count(n) == entries.to_multiset().count(n),
{
    assert forall|e: Seq<u8>| #[trigger]
        entries.contains(e) implies !FileRule::Shard.accepts(e) by {
        law_shard_names(e);
    }
    law_nothing_accepted(entries, FileRule::Shard);
    law_extension_names(n);
    lemma_sorts_counts(names, entries, FileRule::Extension, n);
}

/// Where there is no consolidated file and no entry begins with the bytes of
/// `model-`, every file with the extension is chosen.
pub proof fn law_other_names_are_no_shards(
    entries: Seq<Seq<u8>>,
    names: Seq<Seq<u8>>,
    front: Seq<u8>,
)
    requires
        chooses(false, entries, names),
        forall|tail: Seq<u8>|
            !entries.contains(#[trigger] (vstd::utf8::encode_utf8("model-"@) + tail)),
        front.len() > 0,
        entries.contains(front + vstd::utf8::encode_utf8(".safetensors"@)),
    ensures
        names.contains(front + vstd::utf8::encode_utf8(".safetensors"@)),
{
    assert forall|middle: Seq<char>|
        !entries.contains(
            vstd::utf8::encode_utf8(#[trigger] ("model-"@ + middle + ".safetensors"@)),
        ) by {
        let tail = middle + ".safetensors"@;
        lemma_encode_concat("model-"@, tail);
        assert("model-"@ + middle + ".safetensors"@ =~= "model-"@ + tail);
        assert(!entries.contains(
            vstd::utf8::encode_utf8("model-"@) + vstd::utf8::encode_utf8(tail),
        ));
    }
    law_fallback_chosen(entries, names, front + vstd::utf8::encode_utf8(".safetensors"@));
}

/// One name comes before another exactly where the other continues it, or has
/// the larger byte at the first place where they differ.
pub proof fn law_name_order(a: Seq<u8>, b: Seq<u8>)
    ensures
        name_le(a, b) <==> exists|k: int|
            {
                &&& 0 <= k <= a.len() && k <= b.len()
                &&& #[trigger] a.take(k) == b.take(k)
                &&& k == a.len() || (k < a.len() && k < b.len() && a[k] < b[k])
            },
    decreases a.len(),
{
    if a.len() == 0 {
        assert(a.take(0) =~= b.take(0));
    } else if b.len() == 0 {
    } else {
        let x = a.drop_first();
        let y = b.drop_first();
        law_name_order(x, y);
        if a[0] < b[0] {
            assert(a.take(0) =~= b.take(0));
        } else if a[0] == b[0] && name_le(x, y) {
            let k = choose|k: int|
                {
                    &&& 0 <= k <= x.len() && k <= y.len()
                    &&& #[trigger] x.take(k) == y.take(k)
                    &&& k == x.len() || (k < x.len() && k < y.len() && x[k] < y[k])
                };
            assert(a.take(k + 1) =~= seq![a[0]] + x.take(k));
            assert(b.take(k + 1) =~= seq![b[0]] + y.take(k));
            assert(a.take(k + 1) == b.take(k + 1));
        }
        if exists|k: int|
            {
                &&& 0 <= k <= a.len() && k <= b.len()
                &&& #[trigger] a.take(k) == b.take(k)
                &&& k == a.len() || (k < a.len() && k < b.len() && a[k] < b[k])
            } {
            let k = choose|k: int|
                {
                    &&& 0 <= k <= a.len() && k <= b.len()
                    &&& #[trigger] a.take(k) == b.take(k)
                    &&& k == a.len() || (k < a.len() && k < b.len() && a[k] < b[k])
                };
            if k > 0 {
                assert(a.take(k)[0] == b.take(k)[0]);
                assert(x.take(k - 1) =~= a.take(k).drop_first());
                assert(y.take(k - 1) =~= b.take(k).drop_first());
                assert(x.take(k - 1) == y.take(k - 1));
            }
        }
    }
}

/// The chosen files are in the order of their names.
pub proof fn law_chosen_in_order(
    entries: Seq<Seq<u8>>,
    names: Seq<Seq<u8>>,
    i: int,
    j: int,
)
    requires
        chooses(false, entries, names),
        0 <= i <= j < names.len(),
    ensures
        exists|k: int|
            {
                &&& 0 <= k <= names[i].len() && k <= names[j].len()
                &&& #[trigger] names[i].take(k) == names[j].take(k)
                &&& k == names[i].len() || (k < names[i].len() && k < names[j].len() && names[i][k]
                    < names[j][k])
            },
{
    law_name_order(names[i], names[j]);
}

} // verus!
