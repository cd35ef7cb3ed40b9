use vector_mapp::vec::{Entry, VecMap};

fn s(x: &str) -> String {
    x.to_string()
}

#[test]
fn vec_alpha() {
    let mut v = VecMap::new();
    v.insert(s("hello"), "world");
    v.insert(s("alex"), "andreba");
    v.insert(s("rust 🦀"), "is awesome");

    assert_eq!(v.get(&s("hello")), Some(&"world"));
    assert_eq!(v.get(&s("alex")), Some(&"andreba"));
    assert_eq!(v.get(&s("rust 🦀")), Some(&"is awesome"));
    assert_eq!(v.get(&s("python 🐍")), None);
}

#[test]
fn vec_three_records() {
    let mut v = VecMap::new();
    v.insert(s("alex"), s("andreba"));
    v.insert(s("hello"), s("world"));
    v.insert(s("rust"), s("crab"));

    assert_eq!(v.len(), 3);
    assert_eq!(v.get(&s("hello")), Some(&s("world")));
    assert_eq!(v.remove(&s("alex")), Some(s("andreba")));
    assert_eq!(v.len(), 2);

    let mut remaining: Vec<(String, String)> = Vec::new();
    let mut it = v.iter();
    while let Some((k, val)) = it.next() {
        remaining.push((k.clone(), val.clone()));
    }
    remaining.sort();
    assert_eq!(remaining, vec![(s("hello"), s("world")), (s("rust"), s("crab"))]);
}

#[test]
fn vec_swap_remove_moves_last_slot() {
    let mut v = VecMap::new();
    v.insert(s("a"), 1u32);
    v.insert(s("b"), 2u32);
    v.insert(s("c"), 3u32);
    v.insert(s("d"), 4u32);

    assert_eq!(v.remove_entry(&s("a")), Some((s("a"), 1u32)));
    assert_eq!(v.len(), 3);

    // The former last pair now sits in the vacated first slot.
    let mut order: Vec<String> = Vec::new();
    let mut it = v.keys();
    while let Some(k) = it.next() {
        order.push(k.clone());
    }
    assert_eq!(order, vec![s("d"), s("b"), s("c")]);

    // Removing an absent key answers None and changes nothing.
    assert_eq!(v.remove(&s("zebra")), None);
    assert_eq!(v.len(), 3);
    let mut order2: Vec<String> = Vec::new();
    let mut it2 = v.keys();
    while let Some(k) = it2.next() {
        order2.push(k.clone());
    }
    assert_eq!(order, order2);
}

#[test]
fn vec_duplicate_insert_keeps_one_pair() {
    let mut v = VecMap::new();
    v.insert(s("k"), 1u64);
    assert_eq!(v.len(), 1);
    assert_eq!(v.insert(s("k"), 2u64), Some(1u64));
    assert_eq!(v.len(), 1);
    assert_eq!(v.get(&s("k")), Some(&2u64));
}

#[test]
fn vec_entry_matches_direct_insert() {
    // Entry-based occupation and direct insert land in the same state.
    let mut a = VecMap::new();
    let mut b = VecMap::new();
    for m in [&mut a, &mut b] {
        m.insert(s("x"), 1u32);
        m.insert(s("y"), 2u32);
    }

    match a.entry(s("x")) {
        Entry::Occupied(o) => {
            assert_eq!(o.insert(10u32), 1u32);
        }
        Entry::Vacant(_) => panic!("x is present"),
    }
    b.insert(s("x"), 10u32);

    match a.entry(s("z")) {
        Entry::Occupied(_) => panic!("z is absent"),
        Entry::Vacant(va) => {
            assert_eq!(va.key(), &s("z"));
            *va.insert(30u32) = 31u32;
        }
    }
    b.insert(s("z"), 31u32);

    let mut pa: Vec<(String, u32)> = Vec::new();
    let mut it = a.iter();
    while let Some((k, v)) = it.next() {
        pa.push((k.clone(), *v));
    }
    let mut pb: Vec<(String, u32)> = Vec::new();
    let mut it = b.iter();
    while let Some((k, v)) = it.next() {
        pb.push((k.clone(), *v));
    }
    assert_eq!(pa, pb);
}

#[test]
fn vec_entry_handles() {
    let mut v = VecMap::new();
    v.insert(s("p"), 5i64);
    match v.entry(s("p")) {
        Entry::Occupied(o) => {
            assert_eq!(o.key(), &s("p"));
            assert_eq!(o.get(), &5i64);
            assert_eq!(o.remove(), 5i64);
        }
        Entry::Vacant(_) => panic!("p is present"),
    }
    assert_eq!(v.len(), 0);

    match v.entry(s("q")) {
        Entry::Occupied(_) => panic!("q is absent"),
        Entry::Vacant(va) => {
            assert_eq!(va.into_key(), s("q"));
        }
    }
    assert_eq!(v.len(), 0);

    v.insert(s("r"), 7i64);
    match v.entry(s("r")) {
        Entry::Occupied(o) => {
            let slot = o.into_mut();
            *slot = 8i64;
        }
        Entry::Vacant(_) => panic!("r is present"),
    }
    assert_eq!(v.get(&s("r")), Some(&8i64));

    v.insert(s("t"), 9i64);
    match v.entry(s("t")) {
        Entry::Occupied(o) => {
            assert_eq!(o.remove_entry(), (s("t"), 9i64));
        }
        Entry::Vacant(_) => panic!("t is present"),
    }
    assert_eq!(v.get(&s("t")), None);
}

#[test]
fn vec_get_mut_and_index() {
    let mut v = VecMap::new();
    v.insert(s("a"), 1u8);
    if let Some(slot) = v.get_mut(&s("a")) {
        *slot = 9u8;
    } else {
        panic!("a is present");
    }
    assert_eq!(v.index(&s("a")), &9u8);
    assert_eq!(v.get_mut(&s("missing")), None);
    assert_eq!(v.get_key_value(&s("a")), Some((&s("a"), &9u8)));
    assert!(v.contains_key(&s("a")));
    assert!(!v.contains_key(&s("b")));
}

#[test]
fn vec_u64_keys() {
    let mut v: VecMap<u64, &str> = VecMap::new();
    v.insert(3, "three");
    v.insert(1, "one");
    assert_eq!(v.get(&3), Some(&"three"));
    assert_eq!(v.get(&1), Some(&"one"));
    assert_eq!(v.get(&2), None);
}

#[test]
fn vec_basics_and_capacity() {
    let mut v: VecMap<u64, u64> = VecMap::with_capacity(10);
    assert!(v.is_empty());
    assert_eq!(v.len(), 0);
    v.insert(1, 1);
    v.insert(2, 2);
    v.insert(3, 3);
    assert!(v.capacity() >= v.len());
    v.clear();
    assert!(v.is_empty());
    assert_eq!(v.get(&1), None);
    assert_eq!(v.remove(&1), None);
}

#[test]
fn vec_default_is_empty() {
    let v: VecMap<u64, u64> = VecMap::default();
    assert!(v.is_empty());
    let b: vector_mapp::binary::BinaryMap<u64, u64> = vector_mapp::binary::BinaryMap::default();
    assert_eq!(b.len(), 0);
    let x: vector_mapp::boxed::BoxMap<u64, u64> = vector_mapp::boxed::BoxMap::default();
    assert!(x.is_empty());
}

#[test]
fn vec_drain_and_conversions() {
    let mut v: VecMap<u64, &str> = VecMap::new();
    v.insert(1, "a");
    v.insert(2, "b");
    let mut d = v.drain();
    assert_eq!(v.len(), 0);
    assert_eq!(d.next(), Some((1, "a")));
    assert_eq!(d.next(), Some((2, "b")));
    assert_eq!(d.next(), None);

    v.insert(7, "seven");
    let pairs = v.into_vec();
    assert_eq!(pairs, vec![(7, "seven")]);

    let rebuilt: VecMap<u64, &str> = VecMap::from_vec_unchecked(pairs);
    assert_eq!(rebuilt.get(&7), Some(&"seven"));

    let bx = rebuilt.into_box();
    assert_eq!(bx.len(), 1);
    let from_box: VecMap<u64, &str> = VecMap::from_box_unchecked(bx);
    assert_eq!(from_box.get(&7), Some(&"seven"));
}
