use mapped_btree::array::{copy_range, shift_left, shift_right};
use mapped_btree::search::binary_search;
use mapped_btree::{LeafNode, Node, Unalign};

#[test]
fn shift_right_moves_overlapping_range() {
    let mut buf = [1u64, 2, 3, 4, 5, 0];
    shift_right(&mut buf, 1, 5);
    assert_eq!(buf, [1, 2, 2, 3, 4, 5]);
    let mut buf = [1u64, 2, 3, 4, 5, 6];
    shift_right(&mut buf, 2, 4);
    assert_eq!(buf, [1, 2, 3, 3, 4, 6]);
    let mut buf = [1u64, 2, 3];
    shift_right(&mut buf, 1, 1);
    assert_eq!(buf, [1, 2, 3]);
}

#[test]
fn shift_left_moves_overlapping_range() {
    let mut buf = [1u64, 2, 3, 4, 5, 6];
    shift_left(&mut buf, 1, 6);
    assert_eq!(buf, [1, 3, 4, 5, 6, 6]);
    let mut buf = [1u64, 2, 3, 4, 5, 6];
    shift_left(&mut buf, 2, 4);
    assert_eq!(buf, [1, 2, 4, 4, 5, 6]);
    let mut buf = [1u64, 2, 3];
    shift_left(&mut buf, 2, 3);
    assert_eq!(buf, [1, 2, 3]);
}

#[test]
fn copy_range_writes_only_the_target_window() {
    let src = [10u64, 20, 30, 40, 50];
    let mut dst = [0u64; 6];
    copy_range(&mut dst, 2, &src, 1, 4);
    assert_eq!(dst, [0, 0, 20, 30, 40, 0]);
    copy_range(&mut dst, 0, &src, 3, 3);
    assert_eq!(dst, [0, 0, 20, 30, 40, 0]);
    copy_range(&mut dst, 5, &src, 4, 5);
    assert_eq!(dst, [0, 0, 20, 30, 40, 50]);
}

#[test]
fn binary_search_finds_keys_and_gaps() {
    let keys = [10u64, 20, 30, 40];
    assert_eq!(binary_search(&keys, 10), Ok(0));
    assert_eq!(binary_search(&keys, 20), Ok(1));
    assert_eq!(binary_search(&keys, 40), Ok(3));
    assert_eq!(binary_search(&keys, 0), Err(0));
    assert_eq!(binary_search(&keys, 25), Err(2));
    assert_eq!(binary_search(&keys, 41), Err(4));
    assert_eq!(binary_search(&[], 5), Err(0));
    assert_eq!(binary_search(&[7], 7), Ok(0));
    assert_eq!(binary_search(&[7], 8), Err(1));
}

#[test]
fn binary_search_agrees_with_linear_scan() {
    let keys: Vec<u64> = (0..255u64).map(|i| i * 3 + 1).collect();
    for probe in 0..800u64 {
        let expected = match keys.iter().position(|&k| k == probe) {
            Some(i) => Ok(i),
            None => Err(keys.iter().filter(|&&k| k < probe).count()),
        };
        assert_eq!(binary_search(&keys, probe), expected);
    }
}

#[test]
fn unalign_wraps_and_derefs() {
    let held: Unalign<u64> = Unalign::from(5);
    assert_eq!(*held, 5);
    let copy = held;
    assert_eq!(*copy, 5);
    assert_eq!(*held, 5);

    let mut held: Unalign<u64> = 7.into();
    *held += 1;
    assert_eq!(*held, 8);
}

#[test]
fn unalign_gives_access_to_a_node() {
    let mut held = Unalign::from(LeafNode::new(3));
    held.insert(1, 10);
    held.insert(2, 20);
    assert_eq!(held.keys(), &[1, 2]);
    assert_eq!(held.get(2), Some(20));
    assert_eq!(held.next(), 3);
}
