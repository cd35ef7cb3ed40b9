use vector_mapp::vec::VecMap;

fn sample() -> VecMap<u64, &'static str> {
    let mut v: VecMap<u64, &'static str> = VecMap::new();
    v.insert(1, "a");
    v.insert(2, "b");
    v.insert(3, "c");
    v.insert(4, "d");
    v
}

#[test]
fn iter_forward_and_back() {
    let v = sample();
    let mut it = v.iter();
    assert_eq!(it.len(), 4);
    assert_eq!(it.size_hint(), (4, Some(4)));
    assert_eq!(it.next(), Some((&1, &"a")));
    assert_eq!(it.next_back(), Some((&4, &"d")));
    assert_eq!(it.len(), 2);
    assert_eq!(it.next(), Some((&2, &"b")));
    assert_eq!(it.next(), Some((&3, &"c")));
    assert_eq!(it.next(), None);
    assert_eq!(it.next_back(), None);
}

#[test]
fn iter_nth_count_last() {
    let v = sample();
    let mut it = v.iter();
    assert_eq!(it.nth(2), Some((&3, &"c")));
    assert_eq!(it.len(), 1);
    assert_eq!(it.count(), 1);

    let mut it2 = v.iter();
    assert_eq!(it2.nth(9), None);
    assert_eq!(it2.len(), 0);

    let it3 = v.iter();
    assert_eq!(it3.last(), Some((&4, &"d")));

    let mut it4 = v.iter();
    assert_eq!(it4.nth_back(1), Some((&3, &"c")));
    assert_eq!(it4.len(), 2);
}

#[test]
fn keys_and_values_cursors() {
    let v = sample();
    let mut ks = v.keys();
    assert_eq!(ks.next(), Some(&1));
    assert_eq!(ks.next_back(), Some(&4));
    assert_eq!(ks.nth(0), Some(&2));
    assert_eq!(ks.len(), 1);
    assert_eq!(ks.last(), Some(&3));

    let mut vs = v.values();
    assert_eq!(vs.next(), Some(&"a"));
    assert_eq!(vs.next_back(), Some(&"d"));
    assert_eq!(vs.count(), 2);
}

#[test]
fn owning_cursors() {
    let v = sample();
    let mut it = v.into_iter();
    assert_eq!(it.len(), 4);
    assert_eq!(it.next(), Some((1, "a")));
    assert_eq!(it.next_back(), Some((4, "d")));
    assert_eq!(it.nth(0), Some((2, "b")));
    assert_eq!(it.size_hint(), (1, Some(1)));
    assert_eq!(it.last(), Some((3, "c")));

    let v2 = sample();
    let mut ik = v2.into_keys();
    assert_eq!(ik.next(), Some(1));
    assert_eq!(ik.next_back(), Some(4));
    assert_eq!(ik.len(), 2);

    let v3 = sample();
    let mut iv = v3.into_values();
    assert_eq!(iv.next(), Some("a"));
    assert_eq!(iv.next_back(), Some("d"));
    assert_eq!(iv.next(), Some("b"));
    assert_eq!(iv.next(), Some("c"));
    assert_eq!(iv.next(), None);

    let v4 = sample();
    let mut it4 = v4.into_iter();
    assert_eq!(it4.nth(9), None);
    assert_eq!(it4.count(), 0);
}
