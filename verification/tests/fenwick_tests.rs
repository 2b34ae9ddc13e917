use geister::fenwick::FenwickSet;

#[test]
fn empty_set_behaviour() {
    let set = FenwickSet::with_capacity(10);
    assert_eq!(set.len(), 0);
    assert!(!set.contains(0));
    assert!(!set.contains(9));
    assert!(!set.contains(10));
    assert_eq!(set.nth(0), None);
    assert!(set.iter().is_empty());
}

#[test]
fn insert_remove_contains_reflect_last_operation() {
    let mut set = FenwickSet::with_capacity(100);
    assert!(set.insert(5));
    assert!(set.contains(5));
    // Inserting an element twice is refused.
    assert!(!set.insert(5));
    assert!(set.contains(5));
    // Out-of-range values are refused.
    assert!(!set.insert(100));
    assert!(!set.contains(100));
    assert!(set.remove(5));
    assert!(!set.contains(5));
    // Removing an absent element is refused.
    assert!(!set.remove(5));
    assert!(!set.remove(99));
    // Re-inserting after removal works.
    assert!(set.insert(5));
    assert!(set.contains(5));
}

#[test]
fn count_matches_membership() {
    let mut set = FenwickSet::with_capacity(50);
    let ops: [(bool, usize); 12] = [
        (true, 3),
        (true, 17),
        (true, 3),
        (true, 49),
        (false, 17),
        (true, 0),
        (true, 17),
        (false, 3),
        (true, 31),
        (false, 31),
        (true, 31),
        (true, 8),
    ];
    for (ins, x) in ops {
        if ins {
            set.insert(x);
        } else {
            set.remove(x);
        }
    }
    let mut members = 0;
    for x in 0..50 {
        if set.contains(x) {
            members += 1;
        }
    }
    assert_eq!(set.len(), members);
    assert_eq!(set.len(), 5);
}

#[test]
fn iter_ascending_and_nth_agree() {
    let mut set = FenwickSet::with_capacity(64);
    for x in [40, 2, 63, 17, 9, 0, 33] {
        assert!(set.insert(x));
    }
    let listed = set.iter();
    assert_eq!(listed, vec![0, 2, 9, 17, 33, 40, 63]);
    // Ascending and duplicate-free.
    for w in listed.windows(2) {
        assert!(w[0] < w[1]);
    }
    // Exactly the members, in order, indexed by nth.
    assert_eq!(listed.len(), set.len());
    for (i, x) in listed.iter().enumerate() {
        assert!(set.contains(*x));
        assert_eq!(set.nth(i), Some(*x));
    }
    assert_eq!(set.nth(listed.len()), None);
    assert_eq!(set.nth(1000), None);
}

#[test]
fn from_range_prefills() {
    let set = FenwickSet::from_range(3, 9);
    assert_eq!(set.len(), 6);
    for x in 0..3 {
        assert!(!set.contains(x));
    }
    for x in 3..9 {
        assert!(set.contains(x));
    }
    assert!(!set.contains(9));
    assert_eq!(set.iter(), vec![3, 4, 5, 6, 7, 8]);
    let empty = FenwickSet::from_range(4, 4);
    assert_eq!(empty.len(), 0);
}

#[test]
fn nth_tracks_mutation() {
    let mut set = FenwickSet::from_range(0, 8);
    assert_eq!(set.nth(0), Some(0));
    assert_eq!(set.nth(7), Some(7));
    set.remove(0);
    set.remove(4);
    assert_eq!(set.nth(0), Some(1));
    assert_eq!(set.nth(3), Some(5));
    assert_eq!(set.nth(5), Some(7));
    assert_eq!(set.nth(6), None);
}
