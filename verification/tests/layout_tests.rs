use edge_cdn_store::disk::{part_path, EntryPart};
use edge_cdn_store::layout::hash_str;
use edge_cdn_store::EdgeMemoryStorage;

#[test]
fn keys_hash_to_sixteen_hex_digits() {
    assert_eq!(hash_str(""), "cbf29ce484222325");
    assert_eq!(hash_str("a"), "af63dc4c8601ec8c");
    assert_eq!(hash_str("foobar"), "85944171f73967e8");
}

#[test]
fn entries_are_filed_under_two_pairs_of_digits() {
    let storage = EdgeMemoryStorage::with_disk_root("/var/lib/edge".to_string());
    let dir = storage.entry_path("foobar");
    assert_eq!(
        dir.components,
        vec!["/var/lib/edge", "85", "94", "85944171f73967e8"]
    );
    assert_eq!(storage.key_dir("85944171f73967e8"), dir);
    assert_eq!(
        storage.key_dir("abcdé").components,
        vec!["/var/lib/edge", "ab", "cd", "abcdé"]
    );
    let names: Vec<String> = [EntryPart::Body, EntryPart::MetaHeader, EntryPart::MetaInternal]
        .into_iter()
        .map(|part| part_path(&dir, part).components[4].clone())
        .collect();
    assert_eq!(
        names,
        vec!["body.bin", "meta_header.bin", "meta_internal.bin"]
    );
    assert_eq!(dir.tmp_sibling().components[3], "85944171f73967e8.tmp");
    assert_eq!(dir.parent().components.len(), 3);
}
