use vector_mapp::binary::{BinaryMap, Entry};

fn s(x: &str) -> String {
    x.to_string()
}

fn keys_in_order(m: &BinaryMap<String, String>) -> Vec<String> {
    let mut order: Vec<String> = Vec::new();
    let mut it = m.keys();
    while let Some(k) = it.next() {
        order.push(k.clone());
    }
    order
}

#[test]
fn binary_alpha() {
    let mut v = BinaryMap::new();
    v.insert(s("hello"), "world");
    v.insert(s("alex"), "andreba");
    v.insert(s("rust 🦀"), "is awesome");

    assert_eq!(v.get(&s("hello")), Some(&"world"));
    assert_eq!(v.get(&s("alex")), Some(&"andreba"));
    assert_eq!(v.get(&s("rust 🦀")), Some(&"is awesome"));
    assert_eq!(v.get(&s("python 🐍")), None);
}

#[test]
fn binary_keys_come_out_sorted() {
    let mut v = BinaryMap::new();
    v.insert(s("rust"), s("crab"));
    v.insert(s("alex"), s("andreba"));
    v.insert(s("hello"), s("world"));

    assert_eq!(keys_in_order(&v), vec![s("alex"), s("hello"), s("rust")]);
}

#[test]
fn binary_sortedness_through_mixed_operations() {
    let mut v = BinaryMap::new();
    v.insert(s("m"), s("1"));
    v.insert(s("c"), s("2"));
    v.insert(s("x"), s("3"));
    v.remove(&s("m"));
    v.insert(s("a"), s("4"));
    match v.entry(s("q")) {
        Entry::Occupied(_) => panic!("q is absent"),
        Entry::Vacant(va) => {
            va.insert(s("5"));
        }
    }
    match v.entry(s("c")) {
        Entry::Occupied(o) => {
            o.insert(s("6"));
        }
        Entry::Vacant(_) => panic!("c is present"),
    }

    let order = keys_in_order(&v);
    assert_eq!(order, vec![s("a"), s("c"), s("q"), s("x")]);
    for w in order.windows(2) {
        assert!(w[0] < w[1]);
    }
    assert_eq!(v.get(&s("c")), Some(&s("6")));
}

#[test]
fn binary_entry_matches_direct_insert() {
    // Entry-based occupation and direct insert land in the same state.
    let mut a: BinaryMap<u64, u64> = BinaryMap::new();
    let mut b: BinaryMap<u64, u64> = BinaryMap::new();
    for m in [&mut a, &mut b] {
        m.insert(2, 20);
        m.insert(4, 40);
    }

    match a.entry(2) {
        Entry::Occupied(o) => {
            assert_eq!(o.insert(21), 20);
        }
        Entry::Vacant(_) => panic!("2 is present"),
    }
    b.insert(2, 21);

    match a.entry(3) {
        Entry::Occupied(_) => panic!("3 is absent"),
        Entry::Vacant(va) => {
            va.insert(30);
        }
    }
    b.insert(3, 30);

    let mut pa: Vec<(u64, u64)> = Vec::new();
    let mut it = a.iter();
    while let Some((k, v)) = it.next() {
        pa.push((*k, *v));
    }
    let mut pb: Vec<(u64, u64)> = Vec::new();
    let mut it = b.iter();
    while let Some((k, v)) = it.next() {
        pb.push((*k, *v));
    }
    assert_eq!(pa, pb);
    assert_eq!(pa, vec![(2, 21), (3, 30), (4, 40)]);
}

#[test]
fn binary_duplicate_insert_keeps_one_pair() {
    let mut v = BinaryMap::new();
    v.insert(s("k"), 1u64);
    assert_eq!(v.insert(s("k"), 2u64), Some(1u64));
    assert_eq!(v.len(), 1);
    assert_eq!(v.get(&s("k")), Some(&2u64));
}

#[test]
fn binary_insert_front_and_back() {
    let mut v = BinaryMap::new();
    assert_eq!(v.insert_back(s("m"), 1u32), Ok(()));
    assert_eq!(v.insert_back(s("t"), 2u32), Ok(()));
    // A key at or below the current maximum is handed back unchanged.
    assert_eq!(v.insert_back(s("a"), 3u32), Err((s("a"), 3u32)));
    assert_eq!(v.insert_back(s("t"), 4u32), Err((s("t"), 4u32)));

    assert_eq!(v.insert_front(s("a"), 5u32), Ok(()));
    // A key at or above the current minimum is handed back unchanged.
    assert_eq!(v.insert_front(s("z"), 6u32), Err((s("z"), 6u32)));
    assert_eq!(v.insert_front(s("a"), 7u32), Err((s("a"), 7u32)));

    let mut order: Vec<String> = Vec::new();
    let mut it = v.keys();
    while let Some(k) = it.next() {
        order.push(k.clone());
    }
    assert_eq!(order, vec![s("a"), s("m"), s("t")]);
    assert_eq!(v.get(&s("a")), Some(&5u32));
}

#[test]
fn binary_unchecked_front_back() {
    let mut v: BinaryMap<u64, &str> = BinaryMap::new();
    v.insert_back_unchecked(5, "five");
    v.insert_back_unchecked(9, "nine");
    v.insert_front_unchecked(2, "two");
    assert_eq!(v.len(), 3);
    assert_eq!(v.get(&2), Some(&"two"));
    assert_eq!(v.get(&5), Some(&"five"));
    assert_eq!(v.get(&9), Some(&"nine"));
}

#[test]
fn binary_remove_shifts_and_preserves_order() {
    let mut v: BinaryMap<u64, u64> = BinaryMap::new();
    for (k, val) in [(4u64, 40u64), (1, 10), (3, 30), (2, 20)] {
        v.insert(k, val);
    }
    assert_eq!(v.remove_entry(&2), Some((2, 20)));
    assert_eq!(v.remove(&7), None);
    assert_eq!(v.len(), 3);

    let mut pairs: Vec<(u64, u64)> = Vec::new();
    let mut it = v.iter();
    while let Some((k, val)) = it.next() {
        pairs.push((*k, *val));
    }
    assert_eq!(pairs, vec![(1, 10), (3, 30), (4, 40)]);
}

#[test]
fn binary_entry_handles() {
    let mut v: BinaryMap<u64, u64> = BinaryMap::new();
    v.insert(1, 100);
    match v.entry(1) {
        Entry::Occupied(o) => {
            assert_eq!(o.key(), &1);
            assert_eq!(o.get(), &100);
            let slot = o.into_mut();
            *slot = 101;
        }
        Entry::Vacant(_) => panic!("1 is present"),
    }
    assert_eq!(v.get(&1), Some(&101));

    match v.entry(2) {
        Entry::Occupied(_) => panic!("2 is absent"),
        Entry::Vacant(va) => {
            assert_eq!(va.key(), &2);
            va.insert(200);
        }
    }
    assert_eq!(v.get(&2), Some(&200));

    match v.entry(1) {
        Entry::Occupied(o) => {
            assert_eq!(o.remove_entry(), (1, 101));
        }
        Entry::Vacant(_) => panic!("1 is present"),
    }
    match v.entry(2) {
        Entry::Occupied(o) => {
            assert_eq!(o.remove(), 200);
        }
        Entry::Vacant(_) => panic!("2 is present"),
    }
    assert_eq!(v.len(), 0);
}

#[test]
fn binary_from_vec_sorts_and_dedups() {
    let pairs: Vec<(u64, &str)> = vec![(3, "c"), (1, "a"), (2, "b"), (1, "later")];
    let v = BinaryMap::from_vec(pairs);
    assert_eq!(v.len(), 3);
    assert_eq!(v.get(&1), Some(&"later"));
    let mut order: Vec<u64> = Vec::new();
    let mut it = v.keys();
    while let Some(k) = it.next() {
        order.push(*k);
    }
    assert_eq!(order, vec![1, 2, 3]);
}

#[test]
fn binary_lookup_and_misc() {
    let mut v: BinaryMap<u64, &str> = BinaryMap::with_capacity(4);
    v.insert(10, "ten");
    v.insert(20, "twenty");
    assert!(v.contains_key(&10));
    assert!(!v.contains_key(&15));
    assert_eq!(v.get_key_value(&20), Some((&20, &"twenty")));
    assert_eq!(v.index(&10), &"ten");
    if let Some(slot) = v.get_mut(&10) {
        *slot = "TEN";
    } else {
        panic!("10 is present");
    }
    assert_eq!(v.get(&10), Some(&"TEN"));
    assert!(v.capacity() >= v.len());

    let mut d = v.drain();
    assert_eq!(d.next(), Some((10, "TEN")));
    assert_eq!(d.next(), Some((20, "twenty")));
    assert_eq!(d.next(), None);
    assert_eq!(v.len(), 0);

    v.insert(1, "one");
    let mut ik = v.into_keys();
    assert_eq!(ik.next(), Some(1));
    assert_eq!(ik.next(), None);
}
