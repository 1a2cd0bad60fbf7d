use n0::ident::{key_of, Document, NodeKey};

#[test]
fn keys_are_minted_only_for_live_nodes() {
    let mut document = Document::new(3);
    let child = document.add_node();
    assert_eq!(child, 1);
    assert_eq!(
        key_of(&document, child),
        Some(NodeKey {
            incarnation: 3,
            slot: 1,
            generation: 0
        })
    );
    assert_eq!(key_of(&document, 2), None);
    let key = key_of(&document, child).unwrap();
    assert_eq!(document.node_for_key(key), Some(child));
    assert!(document.remove_node(child));
    assert!(!document.remove_node(child));
    assert_eq!(key_of(&document, child), None);
    assert_eq!(document.node_for_key(key), None, "a removed node's key is stale");
    assert_eq!(document.root(), 0);
    assert!(key_of(&document, document.root()).is_some());
}

#[test]
fn keys_from_another_incarnation_do_not_resolve() {
    let first = Document::new(1);
    let second = Document::new(2);
    let key = key_of(&first, 0).unwrap();
    assert_eq!(second.node_for_key(key), None);
    assert_eq!(first.node_for_key(key), Some(0));
}
