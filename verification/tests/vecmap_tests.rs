use smallvecmap::SmallVecMap;
use smallvecmap::UniformMap;
use smallvecmap::VecMap;

#[test]
fn vecmap_insert_get_remove() {
    let mut map: VecMap<u32> = VecMap::new();
    assert!(map.is_empty());
    assert_eq!(map.insert(4, 40), None);
    assert_eq!(map.insert(0, 1), None);
    assert_eq!(map.insert(4, 41), Some(40));
    assert_eq!(map.len(), 2);
    assert_eq!(map.get(4), Some(&41));
    assert_eq!(map.get(0), Some(&1));
    assert_eq!(map.get(2), None);
    assert_eq!(map.contains(4), true);
    assert_eq!(map.contains(5), false);
    assert_eq!(map.remove(4), Some(41));
    assert_eq!(map.remove(4), None);
    assert_eq!(map.len(), 1);
    assert_eq!(map.get(4), None);
}

#[test]
fn vecmap_mutation_and_unchecked() {
    let mut map: VecMap<u32> = VecMap::new();
    map.insert(3, 30);
    map.insert(6, 60);
    assert_eq!(map.get_unchecked(3), &30);
    *map.get_unchecked_mut(3) = 31;
    assert_eq!(map.get(3), Some(&31));
    if let Some(v) = map.get_mut(6) {
        *v = 61;
    }
    assert_eq!(map.get_mut(7), None);
    assert_eq!(map.replace(6, 62), 61);
    assert_eq!(map.remove_unchecked(6), 62);
    assert_eq!(map.len(), 1);
}

#[test]
fn vecmap_clear_and_capacity() {
    let mut map: VecMap<u32> = VecMap::with_capacity(32);
    assert!(map.capacity() >= 32);
    map.insert(20, 5);
    assert!(map.capacity() >= 21);
    map.remove(20);
    assert!(map.capacity() >= 21);
    map.clear();
    assert!(map.is_empty());
    assert_eq!(map.mem_size(), map.capacity() * std::mem::size_of::<u32>());
}

#[test]
fn vecmap_iter_skips_empty_slots() {
    let mut map: VecMap<u32> = VecMap::new();
    map.insert(2, 20);
    map.insert(5, 50);
    map.insert(9, 90);
    map.remove(5);
    let mut it = map.iter();
    let mut seen: Vec<(u32, u32)> = Vec::new();
    while let Some(pair) = it.next() {
        seen.push(*pair);
    }
    assert_eq!(seen, vec![(20, 2), (90, 9)]);
    // The traversal is restartable: a fresh iterator sees the same pairs.
    let mut it = map.iter();
    assert_eq!(it.next(), Some(&(20u32, 2u32)));
    assert_eq!(it.next(), Some(&(90u32, 9u32)));
    assert_eq!(it.next(), None);
    assert_eq!(it.next(), None);
}

#[test]
fn vecmap_iter_mut_edits_values() {
    let mut map: VecMap<u32> = VecMap::new();
    map.insert(1, 100);
    map.insert(4, 400);
    map.insert(6, 600);
    map.remove(4);
    let mut it = map.iter_mut();
    let mut keys: Vec<u32> = Vec::new();
    while let Some((key, v)) = it.next() {
        keys.push(key);
        *v += 1;
    }
    assert_eq!(keys, vec![1, 6]);
    assert_eq!(map.get(1), Some(&101));
    assert_eq!(map.get(4), None);
    assert_eq!(map.get(6), Some(&601));
    assert_eq!(map.len(), 2);
}

fn exercise<M: UniformMap<Key = u32, Val = u32>>() -> (usize, Option<u32>, bool) {
    let mut map = M::with_capacity(8);
    map.insert(1, 10);
    map.insert(3, 30);
    map.insert(1, 11);
    map.remove(&3);
    (map.len(), map.get(&1).copied(), map.contains(&3))
}

#[test]
fn uniform_map_is_strategy_independent() {
    // The same calls through the trait give the same answers whichever
    // storage strategy backs the container.
    let dense = exercise::<SmallVecMap<u32, 8>>();
    let direct = exercise::<VecMap<u32>>();
    assert_eq!(dense, (1, Some(11), false));
    assert_eq!(direct, (1, Some(11), false));
}

#[test]
fn uniform_map_unchecked_surface() {
    let mut map: SmallVecMap<u32, 8> = UniformMap::with_capacity(4);
    UniformMap::insert(&mut map, 2, 20);
    assert_eq!(UniformMap::get_unchecked(&map, &2), &20);
    *UniformMap::get_unchecked_mut(&mut map, &2) = 21;
    assert_eq!(UniformMap::remove_unchecked(&mut map, &2), 21);
    assert_eq!(UniformMap::len(&map), 0);
    assert_eq!(UniformMap::mem_size(&map), UniformMap::capacity(&map) * std::mem::size_of::<u32>());
}
