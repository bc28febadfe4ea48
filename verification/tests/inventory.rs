use rhei_cli::inventory::{composition_tree_digest, CompositionInventory, EntryKind, InventoryEntry};

fn file(path: &str, bytes: &str) -> InventoryEntry {
    InventoryEntry { path: path.to_string(), kind: EntryKind::File, bytes: bytes.as_bytes().to_vec() }
}

#[test]
fn templates_blocks_inventory_source_digest_ignores_creation_order_and_hidden_host_metadata() {
    let first = CompositionInventory { entries: vec![file("b", "two"), file("a", "one")], escaping: false };
    let second = CompositionInventory { entries: vec![file("a", "one"), file("b", "two")], escaping: false };
    assert_eq!(first.digest(), second.digest());
}

#[test]
fn templates_blocks_provenance_source_digest_ignores_creation_order_and_hidden_host_metadata() {
    let first = vec![file("b", "two"), file("a", "one")];
    let second = vec![file("a", "one"), file("b", "two")];
    assert_eq!(composition_tree_digest(&first), composition_tree_digest(&second));
}

#[test]
fn digest_is_sha256_of_length_framed_sorted_entries() {
    let empty = CompositionInventory { entries: Vec::new(), escaping: false };
    assert_eq!(empty.digest(), "e3b0c44298fc1c149afbf4c8996fb92427ae41e4649b934ca495991b7852b855");
    let two = CompositionInventory { entries: vec![file("b", "two"), file("a", "one")], escaping: false };
    assert_eq!(two.digest(), "72abcc9f7b9d97ffa8f49f8049a2b97c6b77d8e84a97f0e8bc5682f19cf6599f");
    let linked = CompositionInventory {
        entries: vec![
            InventoryEntry { path: "a".into(), kind: EntryKind::Symlink, bytes: b"target".to_vec() },
            file("a", "one"),
        ],
        escaping: true,
    };
    assert_eq!(linked.digest(), "776fd52630c707f5fa02f162c1fe6c3ec976e7b2927dd2b5b6528ce5d6dba98a");
    assert_eq!(
        composition_tree_digest(&vec![file("b", "two"), file("a", "one")]),
        "72abcc9f7b9d97ffa8f49f8049a2b97c6b77d8e84a97f0e8bc5682f19cf6599f"
    );
}
