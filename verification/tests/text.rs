use itertools::Itertools;
use surreal_ts_core::config::{
    default_address, default_metadata_table, default_output, default_password, default_target_sdk,
    default_username, Config,
};
use surreal_ts_core::ordered;
use surreal_ts_core::text::{
    begins_with, chars_of, comes_before, followed_by, ends_with, remove_all, same_text, split,
};

#[test]
fn defaults_are_those_of_a_local_database() {
    assert_eq!(default_address(), "http://localhost:8000");
    assert_eq!(default_username(), "root");
    assert_eq!(default_password(), "root");
    assert!(default_target_sdk());
    assert_eq!(default_metadata_table(), "table_meta");
    assert_eq!(default_output(), "db.ts");
    let config = Config::default();
    assert_eq!(config.address, "http://localhost:8000");
    assert_eq!(config.namespace, None);
    assert!(config.target_sdk);
    assert!(!config.links_fetched && !config.no_meta && !config.store_meta_in_db);
    assert_eq!(config.output, "db.ts");
}

#[test]
fn paths_are_cut_at_every_dot() {
    assert_eq!(split("a.b.c", '.'), vec!["a", "b", "c"]);
    assert_eq!(split("abc", '.'), vec!["abc"]);
    assert_eq!(split("", '.'), vec![""]);
    assert_eq!(split("a..b.", '.'), vec!["a", "", "b", ""]);
    assert_eq!(split(".é.", '.'), vec!["", "é", ""]);
    for path in ["a.b.c", "", ".", "a.", ".a", "x..y"] {
        let expected: Vec<String> = path.split('.').map(|s| s.to_string()).collect();
        assert_eq!(split(path, '.'), expected);
    }
}

#[test]
fn the_item_marker_is_removed_everywhere() {
    assert_eq!(remove_all("tags[*]", "[*]"), "tags");
    assert_eq!(remove_all("a[*].b[*][*].c", "[*]"), "a.b.c");
    assert_eq!(remove_all("[*]", "[*]"), "");
    assert_eq!(remove_all("a[*", "[*]"), "a[*");
    assert_eq!(remove_all("[[*]*]", "[*]"), "[*]");
    assert_eq!(remove_all("plain", "[*]"), "plain");
    for path in ["a[*].b", "[*][*]", "[[*]*]", "é[*]é", ""] {
        assert_eq!(remove_all(path, "[*]"), path.replace("[*]", ""));
    }
    assert!(ends_with("tags[*]", "[*]"));
    assert!(!ends_with("tags[*].x", "[*]"));
    assert!(!ends_with("*]", "[*]"));
    assert!(begins_with("a.b", "a."));
    assert!(!begins_with("ab", "a."));
    assert!(!begins_with("a", "a."));
}

#[test]
fn names_are_ordered_as_strings_are() {
    let names = ["", "a", "ab", "b", "B", "a.b", "a-b", "é", "z", "aé", "a[*]"];
    for a in names {
        for b in names {
            assert_eq!(comes_before(a, b), a < b, "{:?} before {:?}", a, b);
            assert_eq!(same_text(a, b), a == b);
        }
    }
    assert_eq!(chars_of("aé"), vec!['a', 'é']);
    assert_eq!(followed_by("a", "é"), "aé");
}

#[test]
fn entries_are_kept_as_a_sorted_map_keeps_them() {
    let keys = ["m", "a", "z", "ab", "a", "é", "", "m", "B"];
    let mut entries: Vec<(String, u8)> = Vec::new();
    let mut reference = std::collections::BTreeMap::new();
    for (i, key) in keys.iter().enumerate() {
        ordered::insert(&mut entries, key.to_string(), i as u8);
        reference.insert(key.to_string(), i as u8);
    }
    let expected: Vec<(String, u8)> = reference.into_iter().collect();
    assert_eq!(entries, expected);
    assert_eq!(ordered::position(&entries, &"ab".to_string()), Some(3));
    assert_eq!(ordered::position(&entries, &"q".to_string()), None);
    assert_eq!(entries.iter().map(|(k, _)| k.as_str()).join(","), ",B,a,ab,m,z,é");
}
