use path_tracer::dense_arena::Arena;

#[test]
fn insert_then_get_returns_value() {
    let mut arena: Arena<&str> = Arena::default();
    let a = arena.insert("a");
    let b = arena.insert("b");
    assert_eq!(arena.get(a), Some(&"a"));
    assert_eq!(arena.get(b), Some(&"b"));
    assert_eq!(arena.len(), 2);
    assert_ne!(a, b);
}

#[test]
fn default_arena_is_empty() {
    let arena: Arena<u32> = Arena::default();
    assert_eq!(arena.len(), 0);
    assert!(arena.values_as_slice().is_empty());
    assert!(arena.keys_as_slice().is_empty());
    assert_eq!(arena.get_key(0), None);
}

#[test]
fn remove_returns_value_and_kills_key() {
    let mut arena = Arena::default();
    let a = arena.insert(10);
    let b = arena.insert(20);
    assert_eq!(arena.remove(a), Some(10));
    assert_eq!(arena.get(a), None);
    assert_eq!(arena.remove(a), None);
    assert_eq!(arena.get(b), Some(&20));
    assert_eq!(arena.len(), 1);
}

#[test]
fn removed_key_stays_dead_after_slot_reuse() {
    let mut arena = Arena::default();
    let a = arena.insert(1);
    assert_eq!(arena.remove(a), Some(1));
    let b = arena.insert(2);
    // the vacated slot is reused with a newer version
    assert_eq!(format!("{:?}", a), "Key { idx: 0, version: 1 }");
    assert_eq!(format!("{:?}", b), "Key { idx: 0, version: 3 }");
    assert_ne!(a, b);
    assert_eq!(arena.get(a), None);
    assert_eq!(arena.get(b), Some(&2));
    assert_eq!(arena.remove(a), None);
    assert_eq!(arena.get(b), Some(&2));
}

#[test]
fn free_list_is_last_in_first_out() {
    let mut arena = Arena::default();
    let k0 = arena.insert('x');
    let k1 = arena.insert('y');
    let k2 = arena.insert('z');
    assert_eq!(arena.remove(k0), Some('x'));
    assert_eq!(arena.remove(k2), Some('z'));
    let n0 = arena.insert('p');
    let n1 = arena.insert('q');
    let n2 = arena.insert('r');
    assert_eq!(format!("{:?}", n0), "Key { idx: 2, version: 3 }");
    assert_eq!(format!("{:?}", n1), "Key { idx: 0, version: 3 }");
    assert_eq!(format!("{:?}", n2), "Key { idx: 3, version: 1 }");
    assert_eq!(arena.get(k1), Some(&'y'));
    assert_eq!(arena.len(), 4);
}

#[test]
fn remove_moves_last_value_into_hole() {
    let mut arena = Arena::default();
    let a = arena.insert(1);
    let b = arena.insert(2);
    let c = arena.insert(3);
    assert_eq!(arena.remove(a), Some(1));
    assert_eq!(arena.values_as_slice(), &[3, 2]);
    assert_eq!(arena.keys_as_slice(), &[c, b]);
    assert_eq!(arena.dense_index(c), 0);
    assert_eq!(arena.dense_index(b), 1);
    assert_eq!(arena.get_dense_index(a), None);
    assert_eq!(arena.get(c), Some(&3));
}

#[test]
fn remove_last_value_needs_no_move() {
    let mut arena = Arena::default();
    let a = arena.insert(1);
    let b = arena.insert(2);
    assert_eq!(arena.remove(b), Some(2));
    assert_eq!(arena.values_as_slice(), &[1]);
    assert_eq!(arena.dense_index(a), 0);
}

#[test]
fn dense_index_and_key_round_trip() {
    let mut arena = Arena::default();
    let keys: Vec<_> = (0..5).map(|i| arena.insert(i * 10)).collect();
    for (i, k) in keys.iter().enumerate() {
        assert_eq!(arena.dense_index(*k), i);
        assert_eq!(arena.key(i), *k);
        assert_eq!(arena.get_key(i), Some(*k));
    }
    assert_eq!(arena.get_key(5), None);
}

#[test]
fn get_mut_changes_only_that_value() {
    let mut arena = Arena::default();
    let a = arena.insert(1);
    let b = arena.insert(2);
    *arena.get_mut(a).unwrap() += 100;
    assert_eq!(arena.get(a), Some(&101));
    assert_eq!(arena.get(b), Some(&2));
    arena.remove(b);
    assert!(arena.get_mut(b).is_none());
}

#[test]
fn index_and_index_mut() {
    let mut arena = Arena::default();
    let a = arena.insert(String::from("a"));
    arena.index_mut(a).push('!');
    assert_eq!(arena.index(a), "a!");
}

#[test]
fn slices_and_iterators_follow_dense_order() {
    let mut arena = Arena::default();
    let a = arena.insert(1);
    let b = arena.insert(2);
    let (keys, values) = arena.as_slice();
    assert_eq!(keys, &[a, b]);
    assert_eq!(values, &[1, 2]);
    assert_eq!(arena.values().copied().collect::<Vec<_>>(), vec![1, 2]);
    assert_eq!(arena.keys().copied().collect::<Vec<_>>(), vec![a, b]);
    let pairs = arena.iter();
    assert_eq!(pairs, vec![(&a, &1), (&b, &2)]);
    for v in arena.values_mut() {
        *v *= 3;
    }
    assert_eq!(arena.get(a), Some(&3));
    assert_eq!(arena.get(b), Some(&6));
}

#[test]
fn key_from_other_arena_is_refused_unless_it_matches() {
    let mut first = Arena::default();
    let mut second = Arena::default();
    let k = first.insert(1);
    let _ = second.insert(2);
    let k2 = second.insert(3);
    // slot 1 of `first` does not exist
    assert_eq!(first.get(k2), None);
    assert_eq!(first.remove(k2), None);
    assert_eq!(first.get(k), Some(&1));
}

#[test]
fn removing_fresh_key_restores_contents() {
    let mut arena = Arena::default();
    let a = arena.insert(5);
    let b = arena.insert(6);
    let k = arena.insert(7);
    assert_eq!(arena.remove(k), Some(7));
    assert_eq!(arena.values_as_slice(), &[5, 6]);
    assert_eq!(arena.keys_as_slice(), &[a, b]);
}

#[test]
fn many_inserts_and_removes_keep_lookups_consistent() {
    let mut arena = Arena::default();
    let mut live = Vec::new();
    for round in 0..50u32 {
        let k = arena.insert(round);
        live.push((k, round));
        if round % 3 == 2 {
            let (gone, v) = live.remove((round as usize * 7) % live.len());
            assert_eq!(arena.remove(gone), Some(v));
            assert_eq!(arena.get(gone), None);
        }
        assert_eq!(arena.len(), live.len());
        for (k, v) in &live {
            assert_eq!(arena.get(*k), Some(v));
            assert_eq!(arena.key(arena.dense_index(*k)), *k);
        }
    }
}

#[test]
fn reinsert_after_remove_reuses_freed_slot() {
    let mut a = Arena::<i32>::default();
    let k0 = a.insert(10);
    let k1 = a.insert(20);
    assert_eq!(a.remove(k0), Some(10));
    let k2 = a.insert(30);
    assert_ne!(k2, k0);
    assert_eq!(a.get(k2), Some(&30));
    assert_eq!(a.get(k0), None);
    assert_eq!(a.get(k1), Some(&20));
    assert_eq!(a.len(), 2);
    assert_eq!(a.keys_as_slice(), &[k1, k2]);
    assert_eq!(a.values_as_slice(), &[20, 30]);
    assert_eq!(format!("{:?}", k2), "Key { idx: 0, version: 3 }");
}

#[test]
fn remove_first_of_three() {
    let mut a = Arena::<i32>::default();
    let k0 = a.insert(1);
    let k1 = a.insert(2);
    let k2 = a.insert(3);
    assert_eq!(a.remove(k0), Some(1));
    assert_eq!(a.keys_as_slice(), &[k2, k1]);
    assert_eq!(a.values_as_slice(), &[3, 2]);
    assert_eq!(a.get_dense_index(k2), Some(0));
    assert_eq!(a.get(k2), Some(&3));
    assert_eq!(a.get(k1), Some(&2));
    assert_eq!(a.get(k0), None);
    assert_eq!(a.len(), 2);
}

#[test]
fn len_counts_inserts_minus_successful_removes() {
    let mut a = Arena::default();
    let keys: Vec<_> = (0..7).map(|i| a.insert(i)).collect();
    assert_eq!(a.remove(keys[2]), Some(2));
    assert_eq!(a.remove(keys[2]), None);
    assert_eq!(a.remove(keys[5]), Some(5));
    assert_eq!(a.len(), 7 - 2);
    assert_eq!(a.keys_as_slice().len(), 5);
    assert_eq!(a.values_as_slice().len(), 5);
}

#[test]
fn writes_do_not_disturb_slot_reuse() {
    let mut a = Arena::default();
    let k0 = a.insert(1);
    let k1 = a.insert(2);
    assert_eq!(a.remove(k0), Some(1));
    *a.get_mut(k1).unwrap() = 5;
    *a.index_mut(k1) += 1;
    for v in a.values_mut() {
        *v += 1;
    }
    let k2 = a.insert(3);
    assert_eq!(format!("{:?}", k2), "Key { idx: 0, version: 3 }");
    assert_eq!(a.get(k1), Some(&7));
}
