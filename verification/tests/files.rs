use voxtral_weights::error::VoxtralError;
use voxtral_weights::files::find_safetensors_files;

fn names(list: &[&str]) -> Vec<Vec<u8>> {
    list.iter().map(|n| n.as_bytes().to_vec()).collect()
}

#[test]
fn a_consolidated_checkpoint_is_taken_alone() {
    let entries = names(&["model-00001-of-00002.safetensors", "other.safetensors"]);
    assert_eq!(
        find_safetensors_files("/m", true, &entries),
        Ok(names(&["consolidated.safetensors"]))
    );
    assert_eq!(
        find_safetensors_files("/m", true, &vec![]),
        Ok(names(&["consolidated.safetensors"]))
    );
}

#[test]
fn shards_come_before_other_files_and_in_order() {
    let entries = names(&[
        "other.safetensors",
        "model-00002-of-00003.safetensors",
        "params.json",
        "model-00003-of-00003.safetensors",
        "model-00001-of-00003.safetensors",
        "model-00001-of-00003.json",
        "xmodel-1.safetensors",
    ]);
    assert_eq!(
        find_safetensors_files("/m", false, &entries),
        Ok(names(&[
            "model-00001-of-00003.safetensors",
            "model-00002-of-00003.safetensors",
            "model-00003-of-00003.safetensors",
        ]))
    );
}

#[test]
fn any_file_with_the_extension_is_the_fallback() {
    let entries = names(&[
        "weights.safetensors",
        "a.safetensors.bak",
        ".safetensors",
        "..safetensors",
        "a.b.safetensors",
        "safetensors",
        "asafetensors",
        "a.safetensor",
    ]);
    assert_eq!(
        find_safetensors_files("/m", false, &entries),
        Ok(names(&["..safetensors", "a.b.safetensors", "weights.safetensors"]))
    );
}

#[test]
fn the_order_of_the_listing_makes_no_difference() {
    let sorted = names(&["a.safetensors", "ab.safetensors", "b.safetensors", "ba.safetensors"]);
    let mut entries = sorted.clone();
    for _ in 0..4 {
        entries.rotate_left(1);
        assert_eq!(find_safetensors_files("/m", false, &entries), Ok(sorted.clone()));
    }
    entries.reverse();
    assert_eq!(find_safetensors_files("/m", false, &entries), Ok(sorted));
}

#[test]
fn names_that_are_no_text_are_no_shards() {
    let mut shard = b"model-".to_vec();
    shard.push(0xFF);
    shard.extend_from_slice(b".safetensors");
    let entries = vec![shard.clone(), b"z.safetensors".to_vec()];
    assert_eq!(
        find_safetensors_files("/m", false, &entries),
        Ok(vec![shard.clone(), b"z.safetensors".to_vec()])
    );
    let entries = vec![shard, "model-\u{e9}.safetensors".as_bytes().to_vec()];
    assert_eq!(
        find_safetensors_files("/m", false, &entries),
        Ok(names(&["model-\u{e9}.safetensors"]))
    );
}

#[test]
fn a_directory_without_a_checkpoint_is_an_error() {
    for entries in [names(&[]), names(&["params.json", ".safetensors"])] {
        assert_eq!(
            find_safetensors_files("/models/voxtral", false, &entries),
            Err(VoxtralError::ModelLoad(
                "No safetensors files found in /models/voxtral. Expected consolidated.safetensors or sharded model-*.safetensors".to_string()
            ))
        );
    }
}
