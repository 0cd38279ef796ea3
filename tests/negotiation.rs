use codechain_network::negotiation::{negotiate, select_version, ExtensionDescriptor, ExtensionOffer};

fn desc(name: &str, versions: Vec<u64>, needs_encryption: bool) -> ExtensionDescriptor {
    ExtensionDescriptor { name: name.to_string(), versions, needs_encryption }
}

fn offer(name: &str, versions: Vec<u64>) -> ExtensionOffer {
    ExtensionOffer { name: name.to_string(), versions }
}

#[test]
fn picks_highest_common_version() {
    assert_eq!(select_version(&vec![1, 2, 3], &vec![2, 3, 4]), Some(3));
}

#[test]
fn choice_ignores_order_and_side() {
    let a = vec![5, 1, 9, 3];
    let b = vec![3, 9, 2];
    assert_eq!(select_version(&a, &b), Some(9));
    assert_eq!(select_version(&b, &a), Some(9));
    assert_eq!(select_version(&vec![9, 5, 3, 1], &vec![2, 3, 9]), Some(9));
}

#[test]
fn no_overlap_gives_none() {
    assert_eq!(select_version(&vec![1, 2], &vec![3, 4]), None);
    assert_eq!(select_version(&vec![], &vec![3, 4]), None);
}

#[test]
fn table_keeps_shared_extensions_in_registration_order() {
    let local = vec![desc("a", vec![0, 1], false), desc("b", vec![2], false), desc("c", vec![7], false)];
    let offers = vec![offer("c", vec![7, 8]), offer("b", vec![3]), offer("a", vec![1, 2])];
    let t = negotiate(&local, &offers, true);
    assert_eq!(t.len(), 2);
    let (n0, v0) = t.get(0).unwrap();
    assert_eq!(n0.as_str(), "a");
    assert_eq!(v0, 1);
    let (n1, v1) = t.get(1).unwrap();
    assert_eq!(n1.as_str(), "c");
    assert_eq!(v1, 7);
    assert!(t.get(2).is_none());
    assert_eq!(t.slot_of(&"c".to_string()), Some(1));
    assert_eq!(t.slot_of(&"b".to_string()), None);
}

#[test]
fn encrypted_only_extension_needs_a_session() {
    let local = vec![desc("secret", vec![1], true), desc("open", vec![1], false)];
    let offers = vec![offer("secret", vec![1]), offer("open", vec![1])];
    assert_eq!(negotiate(&local, &offers, true).len(), 2);
    let plain = negotiate(&local, &offers, false);
    assert_eq!(plain.len(), 1);
    assert_eq!(plain.get(0).unwrap().0.as_str(), "open");
}

#[test]
fn nothing_in_common_gives_empty_table() {
    let local = vec![desc("a", vec![1], false)];
    let offers = vec![offer("b", vec![1])];
    assert_eq!(negotiate(&local, &offers, true).len(), 0);
}
