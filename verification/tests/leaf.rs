use mappedheap::NULL_PAGE;
use mapped_btree::{LeafNode, Node, PageId};

fn leaf_with(keys: &[u64]) -> LeafNode {
    let mut leaf = LeafNode::new(0);
    for &k in keys {
        leaf.insert(k, k * 10);
    }
    leaf
}

#[test]
fn new_leaf_is_empty() {
    let leaf = LeafNode::new(77);
    assert_eq!(leaf.count(), 0);
    assert!(leaf.keys().is_empty());
    assert!(leaf.content().is_empty());
    assert_eq!(leaf.next(), 77);
    assert!(leaf.half_full());
    assert!(!leaf.full());
    assert!(!leaf.contains(0));
    assert_eq!(leaf.get(0), None);
    assert_eq!(leaf.find_slot(5), 0);
}

#[test]
fn leaf_insert_keeps_keys_sorted() {
    let leaf = leaf_with(&[50, 10, 40, 20, 30]);
    assert_eq!(leaf.keys(), &[10, 20, 30, 40, 50]);
    assert_eq!(leaf.content(), &[100, 200, 300, 400, 500]);
    assert_eq!(leaf.count(), 5);
}

#[test]
fn leaf_find_slot_gives_match_or_insertion_point() {
    let leaf = leaf_with(&[10, 20, 30]);
    assert_eq!(leaf.find_slot(5), 0);
    assert_eq!(leaf.find_slot(10), 0);
    assert_eq!(leaf.find_slot(15), 1);
    assert_eq!(leaf.find_slot(20), 1);
    assert_eq!(leaf.find_slot(30), 2);
    assert_eq!(leaf.find_slot(31), 3);
    assert_eq!(leaf.find_slot(u64::MAX), 3);
}

#[test]
fn leaf_contains_and_get() {
    let leaf = leaf_with(&[10, 20, 30]);
    for k in [10u64, 20, 30] {
        assert!(leaf.contains(k));
        assert_eq!(leaf.get(k), Some(k * 10));
    }
    for k in [0u64, 9, 11, 25, 31, u64::MAX] {
        assert!(!leaf.contains(k));
        assert_eq!(leaf.get(k), None);
    }
}

#[test]
fn leaf_insert_idx_shifts_right() {
    let mut leaf = leaf_with(&[10, 30]);
    leaf.insert_idx(1, 20, 7);
    assert_eq!(leaf.keys(), &[10, 20, 30]);
    assert_eq!(leaf.content(), &[100, 7, 300]);
    leaf.insert_idx(0, 5, 1);
    leaf.insert_idx(4, 40, 2);
    assert_eq!(leaf.keys(), &[5, 10, 20, 30, 40]);
    assert_eq!(leaf.content(), &[1, 100, 7, 300, 2]);
}

#[test]
fn leaf_remove_idx_shifts_left() {
    let mut leaf = leaf_with(&[10, 20, 30, 40]);
    assert_eq!(leaf.remove_idx(1), (20, 200));
    assert_eq!(leaf.keys(), &[10, 30, 40]);
    assert_eq!(leaf.content(), &[100, 300, 400]);
    assert_eq!(leaf.remove_idx(2), (40, 400));
    assert_eq!(leaf.remove_idx(0), (10, 100));
    assert_eq!(leaf.keys(), &[30]);
    assert_eq!(leaf.content(), &[300]);
}

#[test]
fn leaf_remove_idx_on_full_node() {
    let mut leaf = LeafNode::new(0);
    for k in 1..=255u64 {
        leaf.insert(k, k + 1000);
    }
    assert_eq!(leaf.remove_idx(254), (255, 1255));
    assert_eq!(leaf.count(), 254);
    leaf.insert(255, 1255);
    assert_eq!(leaf.remove_idx(0), (1, 1001));
    assert_eq!(leaf.keys()[0], 2);
    assert_eq!(leaf.keys()[253], 255);
    assert_eq!(leaf.content()[253], 1255);
}

#[test]
fn leaf_remove_present_and_absent() {
    let mut leaf = leaf_with(&[10, 20, 30]);
    assert_eq!(leaf.remove(25), None);
    assert_eq!(leaf.keys(), &[10, 20, 30]);
    assert_eq!(leaf.remove(20), Some(200));
    assert_eq!(leaf.keys(), &[10, 30]);
    assert_eq!(leaf.content(), &[100, 300]);
    assert!(!leaf.contains(20));
    assert_eq!(leaf.remove(20), None);
    assert_eq!(leaf.remove(40), None);
    assert_eq!(leaf.remove(10), Some(100));
    assert_eq!(leaf.remove(30), Some(300));
    assert_eq!(leaf.count(), 0);
    assert_eq!(leaf.remove(30), None);
}

#[test]
fn leaf_lookup_follows_inserts_and_removes() {
    let mut leaf = LeafNode::new(0);
    let keys: Vec<u64> = (0..100u64).map(|i| (i * 37) % 101).collect();
    for &k in &keys {
        leaf.insert(k, k + 5);
    }
    for &k in &keys {
        assert!(leaf.contains(k));
        assert_eq!(leaf.get(k), Some(k + 5));
    }
    for &k in keys.iter().step_by(2) {
        assert_eq!(leaf.remove(k), Some(k + 5));
    }
    for (i, &k) in keys.iter().enumerate() {
        if i % 2 == 0 {
            assert!(!leaf.contains(k));
            assert_eq!(leaf.get(k), None);
        } else {
            assert!(leaf.contains(k));
            assert_eq!(leaf.get(k), Some(k + 5));
        }
    }
    let ks = leaf.keys();
    for w in ks.windows(2) {
        assert!(w[0] < w[1]);
    }
}

#[test]
fn leaf_content_mut_overwrites_values_only() {
    let mut leaf = leaf_with(&[10, 20, 30]);
    {
        let values = leaf.content_mut();
        assert_eq!(values.len(), 3);
        values[1] = 999;
    }
    assert_eq!(leaf.keys(), &[10, 20, 30]);
    assert_eq!(leaf.content(), &[100, 999, 300]);
    assert_eq!(leaf.get(20), Some(999));
    assert_eq!(leaf.next(), 0);
}

#[test]
fn leaf_fill_thresholds() {
    let mut leaf = LeafNode::new(0);
    for k in 0..127u64 {
        leaf.insert(k, k);
    }
    assert!(leaf.half_full());
    leaf.insert(127, 127);
    assert_eq!(leaf.count(), 128);
    assert!(!leaf.half_full());
    for k in 128..254u64 {
        leaf.insert(k, k);
    }
    assert!(!leaf.full());
    leaf.insert(254, 254);
    assert_eq!(leaf.count(), 255);
    assert!(leaf.full());
}

#[test]
fn leaf_fills_up_then_splits_on_the_next_key() {
    let mut leaf = LeafNode::new(0);
    for k in 1..=255u64 {
        assert!(!leaf.full());
        leaf.insert(k, k * 2);
    }
    assert!(leaf.full());
    assert_eq!(leaf.count(), 255);
    assert!(leaf.contains(200));

    let right_page = 4242;
    let mut key = 256u64;
    let right = leaf.split(&mut key, 512, right_page);

    assert_eq!(leaf.count() + right.count(), 256);
    assert_eq!(leaf.count(), 127);
    assert_eq!(right.count(), 129);
    assert_eq!(right.keys()[0], key);
    assert_eq!(key, 128);
    assert_eq!(leaf.next(), right_page);
    assert_eq!(right.next(), 0);
    assert!(right.contains(key));
    assert_eq!(right.get(256), Some(512));
    let left_keys: Vec<u64> = (1..=127).collect();
    let right_keys: Vec<u64> = (128..=256).collect();
    assert_eq!(leaf.keys(), &left_keys[..]);
    assert_eq!(right.keys(), &right_keys[..]);
    for k in 1..=256u64 {
        let v = if k < 128 { leaf.get(k) } else { right.get(k) };
        assert_eq!(v, Some(k * 2));
    }
}

#[test]
fn leaf_split_with_key_landing_left() {
    let mut leaf = LeafNode::new(9);
    for k in 1..=255u64 {
        leaf.insert(k * 2, k);
    }
    let mut key = 101u64;
    let right = leaf.split(&mut key, 7, 5);
    assert_eq!(leaf.count(), 128);
    assert_eq!(right.count(), 128);
    assert_eq!(key, 256);
    assert_eq!(right.keys()[0], 256);
    assert_eq!(leaf.get(101), Some(7));
    assert_eq!(leaf.keys()[50], 101);
    assert_eq!(leaf.keys()[127], 254);
    assert_eq!(right.keys()[127], 510);
    assert_eq!(leaf.next(), 5);
    assert_eq!(right.next(), 9);
}

#[test]
fn leaf_split_with_key_at_the_midpoint() {
    let mut leaf = LeafNode::new(0);
    for k in 1..=255u64 {
        leaf.insert(k * 2, k);
    }
    // 127 keys lie below 255, so the key belongs in slot 127 and stays left.
    let mut key = 255u64;
    let right = leaf.split(&mut key, 7, 5);
    assert_eq!(leaf.count(), 128);
    assert_eq!(right.count(), 128);
    assert_eq!(leaf.keys()[127], 255);
    assert_eq!(key, 256);
    assert_eq!(right.keys()[0], 256);

    let mut leaf = LeafNode::new(0);
    for k in 1..=255u64 {
        leaf.insert(k * 2, k);
    }
    // 128 keys lie below 257, so the key goes right and becomes its second key.
    let mut key = 257u64;
    let right = leaf.split(&mut key, 7, 5);
    assert_eq!(leaf.count(), 127);
    assert_eq!(right.count(), 129);
    assert_eq!(key, 256);
    assert_eq!(right.keys()[0], 256);
    assert_eq!(right.keys()[1], 257);
    assert_eq!(right.content()[1], 7);
    assert_eq!(leaf.keys()[126], 254);
}

#[test]
fn leaf_split_with_smallest_key() {
    let mut leaf = LeafNode::new(0);
    for k in 1..=255u64 {
        leaf.insert(k, k);
    }
    let mut key = 0u64;
    let right = leaf.split(&mut key, 1000, 3);
    assert_eq!(leaf.keys()[0], 0);
    assert_eq!(leaf.content()[0], 1000);
    assert_eq!(leaf.count(), 128);
    assert_eq!(right.count(), 128);
    assert_eq!(key, 128);
    assert_eq!(right.keys()[0], 128);
    assert_eq!(leaf.keys()[127], 127);
}

#[test]
fn last_leaf_links_to_the_null_page() {
    let mut last = LeafNode::new(NULL_PAGE);
    for k in 1..=255u64 {
        last.insert(k, k);
    }
    let page: PageId = 17;
    let mut key = 300u64;
    let right = last.split(&mut key, 300, page);
    assert_eq!(last.next(), page);
    assert_eq!(right.next(), NULL_PAGE);
}
