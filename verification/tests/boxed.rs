use vector_mapp::boxed::BoxMap;
use vector_mapp::vec::VecMap;

fn s(x: &str) -> String {
    x.to_string()
}

#[test]
fn boxed_round_trip_lookups() {
    // Inserting unique pairs and freezing the map must answer the same
    // lookups as the live map did.
    let mut v = VecMap::new();
    let pairs = [("alex", "andreba"), ("hello", "world"), ("rust", "crab")];
    for (k, val) in pairs {
        v.insert(s(k), s(val));
    }
    for (k, val) in pairs {
        assert_eq!(v.get(&s(k)), Some(&s(val)));
    }

    let b = BoxMap::from_box_unchecked(v.into_box());
    assert_eq!(b.len(), 3);
    for (k, val) in pairs {
        assert_eq!(b.get(&s(k)), Some(&s(val)));
    }
    assert_eq!(b.get(&s("python")), None);
}

#[test]
fn boxed_read_surface() {
    let mut v: VecMap<u64, &str> = VecMap::new();
    v.insert(1, "a");
    v.insert(2, "b");
    let mut b = BoxMap::from_vec_unchecked(v.into_vec());

    assert!(!b.is_empty());
    assert!(b.contains_key(&1));
    assert!(!b.contains_key(&3));
    assert_eq!(b.get_key_value(&2), Some((&2, &"b")));
    assert_eq!(b.index(&1), &"a");
    if let Some(slot) = b.get_mut(&2) {
        *slot = "B";
    } else {
        panic!("2 is present");
    }
    assert_eq!(b.get(&2), Some(&"B"));

    let mut it = b.iter();
    assert_eq!(it.next(), Some((&1, &"a")));
    assert_eq!(it.next(), Some((&2, &"B")));
    assert_eq!(it.next(), None);

    let empty: BoxMap<u64, &str> = BoxMap::from_vec_unchecked(Vec::new());
    assert!(empty.is_empty());
    assert_eq!(empty.get(&1), None);
}

#[test]
fn boxed_conversions() {
    let mut v: VecMap<u64, u64> = VecMap::new();
    v.insert(5, 50);
    v.insert(6, 60);
    let b = BoxMap::from_vec_unchecked(v.into_vec());

    let back = b.into_vec();
    assert_eq!(back, vec![(5, 50), (6, 60)]);

    let b2 = BoxMap::from_vec_unchecked(back);
    let bx = b2.into_box();
    assert_eq!(bx.len(), 2);
    let b3: BoxMap<u64, u64> = BoxMap::from_box_unchecked(bx);

    let mut ik = b3.into_keys();
    assert_eq!(ik.next(), Some(5));
    assert_eq!(ik.next(), Some(6));
    assert_eq!(ik.next(), None);

    let mut v2: VecMap<u64, u64> = VecMap::new();
    v2.insert(9, 90);
    let b4 = BoxMap::from_vec_unchecked(v2.into_vec());
    let mut iv = b4.into_values();
    assert_eq!(iv.next(), Some(90));
    assert_eq!(iv.next(), None);
}
