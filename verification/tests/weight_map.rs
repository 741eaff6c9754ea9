use voxtral_weights::text::{decimal_text, signed_list_text, signed_text, size_list_text};
use voxtral_weights::text::{starts_with, strip_suffix};
use voxtral_weights::weight_map::WeightMap;

#[test]
fn a_later_weight_takes_the_place_of_an_earlier_one() {
    let mut map = WeightMap::new();
    assert_eq!(map.len(), 0);
    assert_eq!(map.get("a"), None);
    map.insert("a".to_string(), 1);
    map.insert("b".to_string(), 2);
    map.insert("a".to_string(), 3);
    assert_eq!(map.len(), 2);
    assert_eq!(map.get("a"), Some(&3));
    assert_eq!(map.get("b"), Some(&2));
    map.extend(vec![("b".to_string(), 4), ("c".to_string(), 5), ("c".to_string(), 6)]);
    assert_eq!(map.len(), 3);
    assert_eq!(map.get("b"), Some(&4));
    assert_eq!(map.get("c"), Some(&6));

    let mut other = WeightMap::new();
    other.insert("a".to_string(), 7);
    other.insert("d".to_string(), 8);
    map.absorb(other);
    let mut entries = map.into_entries();
    entries.sort();
    assert_eq!(
        entries,
        vec![
            ("a".to_string(), 7),
            ("b".to_string(), 4),
            ("c".to_string(), 6),
            ("d".to_string(), 8),
        ]
    );
}

#[test]
fn numbers_and_lists_are_written_as_std_does() {
    for n in [0u64, 7, 10, 99, 100, 4096, u64::MAX] {
        assert_eq!(decimal_text(n), format!("{n}"));
    }
    for n in [0i64, -1, 10, -4096, i64::MIN, i64::MAX] {
        assert_eq!(signed_text(n), format!("{n}"));
    }
    for list in [vec![], vec![3usize], vec![2, 0, 1024]] {
        assert_eq!(size_list_text(&list), format!("{list:?}"));
    }
    for list in [vec![], vec![-3i64], vec![2, -1, 1024]] {
        assert_eq!(signed_list_text(&list), format!("{list:?}"));
    }
}

#[test]
fn affixes_are_found_as_std_does() {
    let texts = ["", "a", "a.scales", ".scales", "scales", "\u{e9}.scales", "a.scales.scales"];
    for text in texts {
        assert_eq!(strip_suffix(text, ".scales"), text.strip_suffix(".scales"));
        assert_eq!(strip_suffix(text, ""), text.strip_suffix(""));
        for prefix in ["", "a", "\u{e9}", "a.scales"] {
            assert_eq!(starts_with(text, prefix), text.starts_with(prefix));
        }
    }
}
