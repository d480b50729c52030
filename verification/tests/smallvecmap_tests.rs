use std::time::Instant;

use smallvecmap::Arr;
use smallvecmap::SmallVecMap;

#[test]
fn test() {
    let mut map: SmallVecMap<u32, 8> = SmallVecMap::new();
    for i in 1..71u32 {
        map.insert(i, i);
        println!("map------{:?}", map);
    }

    map.remove(30);
    println!("r 30------{:?}", map);

    map.remove(31);
    println!("r 31------{:?}", map);

    map.remove(69);
    println!("r 69------{:?}", map);

    map.remove(70);
    println!("r 70------{:?}", map);

    assert_eq!(map.contains(0), false);
    assert_eq!(map.contains(1), true);
    assert_eq!(map.contains(71), false);
    assert_eq!(map.contains(72), false);

    assert_eq!(map.get(0), None);
    assert_eq!(map.get(1), Some(&1));
    assert_eq!(map.get(50), Some(&50));
    assert_eq!(map.get(70), None);
    assert_eq!(map.get(72), None);

    assert_eq!(map.get_mut(0), None);
    assert_eq!(map.get_mut(64), Some(&mut 64));
    assert_eq!(map.get_mut(30), None);
    assert_eq!(map.get_mut(20), Some(&mut 20));
    assert_eq!(map.get_mut(75), None);

    assert_eq!(map.get_unchecked(2), &2);
    assert_eq!(map.get_unchecked(9), &9);
    assert_eq!(map.get_unchecked(55), &55);
    assert_eq!(map.get_unchecked(60), &60);

    assert_eq!(map.get_unchecked_mut(44), &mut 44);
    assert_eq!(map.get_unchecked_mut(33), &mut 33);
    assert_eq!(map.get_unchecked_mut(7), &mut 7);
}

#[test]
fn test_time() {
    let mut map: SmallVecMap<u32, 16> = SmallVecMap::new();
    let _cc = map.clone();
    let mut arr = Vec::with_capacity(100000);
    let time = Instant::now();
    for i in 0..10000i32 {
        arr.push(i as f32 + 0.5);
    }
    println!("insert vec time: {:?}", Instant::now() - time);

    let time = Instant::now();
    for i in 1..10001u32 {
        map.insert(i, i);
    }
    println!("insert SmallVecMap time: {:?}", Instant::now() - time);

    let mut map: SmallVecMap<f32, 16> = SmallVecMap::new();

    let time = Instant::now();
    for i in 1..10001u32 {
        map.insert(i, 1.0);
    }
    println!("insert SmallVecMap time: {:?}", Instant::now() - time);
}

#[test]
fn arr_size_is_inline_count() {
    assert_eq!(Arr::<u8, 16>::size(), 16);
    assert_eq!(Arr::<String, 3>::size(), 3);
}

#[test]
fn default_is_empty() {
    let map: SmallVecMap<u32, 4> = SmallVecMap::default();
    assert!(map.is_empty());
    assert_eq!(map.len(), 0);
}

#[test]
fn sentinel_slots_stay_absent() {
    // Inserting far beyond the range fills the gap with sentinel slots;
    // none of the skipped keys may look live.
    let mut map: SmallVecMap<u32, 4> = SmallVecMap::new();
    map.insert(10, 1);
    assert_eq!(map.contains(10), true);
    for k in 0..10u32 {
        assert_eq!(map.contains(k), false);
        assert_eq!(map.get(k), None);
    }
    assert_eq!(map.get(10), Some(&1));
    assert_eq!(map.len(), 1);
}

#[test]
fn swap_remove_keeps_other_keys() {
    // Removing a non-last dense element moves the last element into its
    // position; every other live key must read back unchanged.
    let mut map: SmallVecMap<u32, 4> = SmallVecMap::new();
    for k in 1..=10u32 {
        map.insert(k, k * 100);
    }
    assert_eq!(map.remove(3), Some(300));
    assert_eq!(map.len(), 9);
    for k in 1..=10u32 {
        if k == 3 {
            assert_eq!(map.get(k), None);
        } else {
            assert_eq!(map.get(k), Some(&(k * 100)));
        }
    }
}

#[test]
fn remove_absent_changes_nothing() {
    let mut map: SmallVecMap<u32, 4> = SmallVecMap::new();
    assert_eq!(map.remove(7), None);
    assert_eq!(map.len(), 0);

    map.insert(1, 11);
    map.insert(2, 22);
    map.insert(5, 55);
    map.remove(2);
    // Absent for three reasons: out of range, never inserted, removed.
    assert_eq!(map.remove(100), None);
    assert_eq!(map.remove(4), None);
    assert_eq!(map.remove(2), None);
    assert_eq!(map.len(), 2);
    assert_eq!(map.get(1), Some(&11));
    assert_eq!(map.get(5), Some(&55));
}

#[test]
fn insert_over_live_key_replaces() {
    let mut map: SmallVecMap<u32, 4> = SmallVecMap::new();
    assert_eq!(map.insert(9, 1), None);
    let before = map.len();
    assert_eq!(map.insert(9, 2), Some(1));
    assert_eq!(map.get(9), Some(&2));
    assert_eq!(map.len(), before);
}

#[test]
fn backing_length_never_shrinks_except_clear() {
    let mut map: SmallVecMap<u32, 4> = SmallVecMap::new();
    map.insert(100, 7);
    // The indirection array now spans keys 0..=100, so the capacity is at
    // least 101, and removals do not shrink it.
    assert!(map.capacity() >= 101);
    map.remove(100);
    assert!(map.capacity() >= 101);
    assert_eq!(map.len(), 0);
    map.clear();
    assert_eq!(map.len(), 0);
}

#[test]
fn round_trip_survives_other_operations() {
    let mut map: SmallVecMap<u32, 4> = SmallVecMap::new();
    map.insert(42, 4200);
    map.insert(1, 10);
    map.insert(80, 800);
    map.remove(1);
    map.insert(80, 801);
    map.remove(99);
    assert_eq!(map.get(42), Some(&4200));
    assert_eq!(map.get(80), Some(&801));
}

#[test]
fn get_unchecked_mut_writes_through() {
    let mut map: SmallVecMap<u32, 4> = SmallVecMap::new();
    map.insert(5, 50);
    *map.get_unchecked_mut(5) = 99;
    assert_eq!(map.get(5), Some(&99));
    if let Some(v) = map.get_mut(5) {
        *v = 100;
    }
    assert_eq!(map.get(5), Some(&100));
}

#[test]
fn replace_swaps_value_of_live_key() {
    let mut map: SmallVecMap<u32, 4> = SmallVecMap::new();
    map.insert(3, 30);
    assert_eq!(map.replace(3, 31), 30);
    assert_eq!(map.get(3), Some(&31));
    assert_eq!(map.len(), 1);
}

#[test]
fn remove_unchecked_returns_value() {
    let mut map: SmallVecMap<u32, 4> = SmallVecMap::new();
    map.insert(3, 30);
    map.insert(4, 40);
    assert_eq!(map.remove_unchecked(3), 30);
    assert_eq!(map.get(3), None);
    assert_eq!(map.get(4), Some(&40));
    assert_eq!(map.len(), 1);
}

#[test]
fn positional_indexing_matches_unchecked() {
    let mut map: SmallVecMap<u32, 4> = SmallVecMap::new();
    map.insert(6, 60);
    assert_eq!(map.index(6), &60);
    *map.index_mut(6) = 61;
    assert_eq!(map.get(6), Some(&61));
}

#[test]
fn from_pairs_builds_identity_indirection() {
    let pairs = vec![(100u32, 0u32), (200, 1), (300, 2)];
    let map: SmallVecMap<u32, 4> = SmallVecMap::from_pairs(pairs);
    assert_eq!(map.len(), 3);
    assert_eq!(map.get(0), Some(&100));
    assert_eq!(map.get(1), Some(&200));
    assert_eq!(map.get(2), Some(&300));
    assert_eq!(map.get(3), None);
}

#[test]
fn iter_yields_live_pairs() {
    let mut map: SmallVecMap<u32, 4> = SmallVecMap::new();
    map.insert(2, 20);
    map.insert(7, 70);
    map.insert(4, 40);
    map.remove(7);
    let mut seen: Vec<(u32, u32)> = map.iter().clone();
    seen.sort();
    assert_eq!(seen, vec![(20, 2), (40, 4)]);
}

#[test]
fn iter_mut_updates_values_in_place() {
    let mut map: SmallVecMap<u32, 4> = SmallVecMap::new();
    map.insert(2, 20);
    map.insert(8, 80);
    for pair in map.iter_mut().iter_mut() {
        pair.0 += 1;
    }
    assert_eq!(map.get(2), Some(&21));
    assert_eq!(map.get(8), Some(&81));
    assert_eq!(map.len(), 2);
}

#[test]
fn clear_empties_but_keeps_working() {
    let mut map: SmallVecMap<u32, 4> = SmallVecMap::new();
    for k in 0..20u32 {
        map.insert(k, k);
    }
    map.clear();
    assert!(map.is_empty());
    assert_eq!(map.get(5), None);
    map.insert(5, 55);
    assert_eq!(map.get(5), Some(&55));
    assert_eq!(map.len(), 1);
}

#[test]
fn reserve_grows_capacity() {
    let mut map: SmallVecMap<u32, 4> = SmallVecMap::with_capacity(10);
    assert!(map.capacity() >= 10);
    map.reserve(100);
    assert!(map.capacity() >= 100);
    map.reserve_exact(200);
    assert!(map.capacity() >= 200);
    assert!(map.is_empty());
}

#[test]
fn zero_inline_capacity_works() {
    let mut map: SmallVecMap<u32, 0> = SmallVecMap::new();
    assert_eq!(Arr::<u32, 0>::size(), 0);
    map.insert(3, 33);
    map.insert(0, 1);
    assert_eq!(map.get(3), Some(&33));
    assert_eq!(map.get(0), Some(&1));
    assert_eq!(map.len(), 2);
}

#[test]
fn agrees_with_reference_model_over_long_history() {
    // Replay a fixed pseudo-random history of inserts and removals against
    // a plain array-of-options model: after every operation the container
    // must agree with the model on every key's value.
    let mut map: SmallVecMap<u32, 8> = SmallVecMap::new();
    let mut model: Vec<Option<u32>> = vec![None; 64];
    let mut state: u64 = 0x2545F4914F6CDD1D;
    for step in 0..500u32 {
        state = state.wrapping_mul(6364136223846793005).wrapping_add(1442695040888963407);
        let key = ((state >> 33) % 64) as u32;
        let insert = (state >> 13) & 1 == 0;
        if insert {
            let val = step;
            assert_eq!(map.insert(key, val), model[key as usize].replace(val));
        } else {
            assert_eq!(map.remove(key), model[key as usize].take());
        }
        assert_eq!(map.len(), model.iter().filter(|v| v.is_some()).count());
        for k in 0..64u32 {
            assert_eq!(map.get(k).copied(), model[k as usize]);
            assert_eq!(map.contains(k), model[k as usize].is_some());
        }
    }
}

#[test]
fn mem_size_is_capacity_times_value_size() {
    let mut map: SmallVecMap<u32, 4> = SmallVecMap::new();
    map.insert(30, 1);
    assert_eq!(map.mem_size(), map.capacity() * std::mem::size_of::<u32>());
}
