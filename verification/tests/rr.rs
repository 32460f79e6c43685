use rr_cache::rr::{CacheError, RRCache};

#[test]
fn simple() {
    let mut rr = RRCache::new(3);
    for i in 0..10 {
        assert_eq!(rr.try_get(&i), None);
        rr.insert(i, ('A' as u8 + i) as char);
        assert_eq!(rr.try_get(&i), Some(&(('A' as u8 + i) as char)));
    }
    assert_eq!(rr.len(), 3);
    assert_eq!(rr.keys().len(), 3);
    let mut count = 0;
    let mut present = [false; 10];
    for i in 0..10 {
        if rr.try_get(&i).is_some() {
            count += 1;
            present[i as usize] = true;
        }
    }
    assert_eq!(count, 3);
    for i in 0..10 as u8 {
        let c = ('A' as u8 + i) as char;
        let expect = match present[i as usize] {
            false => None,
            true => Some(&c),
        };
        assert_eq!(rr.try_get(&i), expect);
    }
}

#[test]
fn new_cache_is_empty() {
    let rr: RRCache<u32, u32> = RRCache::new(4);
    assert_eq!(rr.capacity(), 4);
    assert_eq!(rr.len(), 0);
    assert!(rr.keys().is_empty());
    assert_eq!(rr.try_get(&0), None);
}

#[test]
fn try_new_turns_down_zero_capacity() {
    let made = RRCache::<u32, u32>::try_new(0);
    assert!(matches!(made, Err(CacheError::ZeroCapacity)));
}

#[test]
fn try_new_accepts_positive_capacity() {
    let made = RRCache::<u32, u32>::try_new(2);
    match made {
        Ok(rr) => {
            assert_eq!(rr.capacity(), 2);
            assert_eq!(rr.len(), 0);
        }
        Err(_) => panic!("a capacity of 2 was turned down"),
    }
}

#[test]
fn ten_keys_into_three_slots() {
    let mut rr: RRCache<u32, u32> = RRCache::new(3);
    for k in 0..10u32 {
        let before: Vec<u32> = rr.keys().clone();
        rr.insert(k, k);
        let gone = before.iter().filter(|p| rr.try_get(p).is_none()).count();
        if k < 3 {
            assert_eq!(gone, 0);
            assert_eq!(rr.len(), (k + 1) as usize);
        } else {
            assert_eq!(gone, 1);
            assert_eq!(rr.len(), 3);
        }
        assert_eq!(rr.try_get(&k), Some(&k));
    }
    assert_eq!(rr.len(), 3);
    let mut resident = 0;
    for k in 0..10u32 {
        if rr.keys().contains(&k) {
            resident += 1;
            assert_eq!(rr.try_get(&k), Some(&k));
        } else {
            assert_eq!(rr.try_get(&k), None);
        }
    }
    assert_eq!(resident, 3);
}

#[test]
fn capacity_one_forces_eviction() {
    let mut rr: RRCache<char, u32> = RRCache::new(1);
    rr.insert('a', 1);
    assert_eq!(rr.try_get(&'a'), Some(&1));
    rr.insert('b', 2);
    assert_eq!(rr.try_get(&'a'), None);
    assert_eq!(rr.try_get(&'b'), Some(&2));
    assert_eq!(rr.len(), 1);
    assert_eq!(rr.keys(), &vec!['b']);
}

#[test]
fn insert_at_fills_slots_in_order() {
    let mut rr: RRCache<u32, u32> = RRCache::new(3);
    rr.insert_at(2, 10, 100);
    rr.insert_at(2, 20, 200);
    rr.insert_at(2, 30, 300);
    assert_eq!(rr.keys(), &vec![10, 20, 30]);
    assert_eq!(rr.try_get(&10), Some(&100));
    assert_eq!(rr.try_get(&20), Some(&200));
    assert_eq!(rr.try_get(&30), Some(&300));
}

#[test]
fn insert_at_evicts_the_key_in_the_slot() {
    let mut rr: RRCache<u32, u32> = RRCache::new(3);
    rr.insert_at(0, 10, 100);
    rr.insert_at(0, 20, 200);
    rr.insert_at(0, 30, 300);
    rr.insert_at(1, 40, 400);
    assert_eq!(rr.keys(), &vec![10, 40, 30]);
    assert_eq!(rr.try_get(&20), None);
    assert_eq!(rr.try_get(&10), Some(&100));
    assert_eq!(rr.try_get(&30), Some(&300));
    assert_eq!(rr.try_get(&40), Some(&400));
    assert_eq!(rr.len(), 3);
    rr.insert_at(2, 50, 500);
    assert_eq!(rr.keys(), &vec![10, 40, 50]);
    assert_eq!(rr.try_get(&30), None);
    rr.insert_at(0, 60, 600);
    assert_eq!(rr.keys(), &vec![60, 40, 50]);
    assert_eq!(rr.try_get(&10), None);
    assert_eq!(rr.len(), 3);
}

#[test]
fn resident_key_gets_the_new_value_and_keeps_its_slot() {
    let mut rr: RRCache<u32, u32> = RRCache::new(2);
    rr.insert(1, 10);
    rr.insert(2, 20);
    rr.insert(1, 11);
    assert_eq!(rr.keys(), &vec![1, 2]);
    assert_eq!(rr.try_get(&1), Some(&11));
    assert_eq!(rr.try_get(&2), Some(&20));
    rr.insert_at(1, 1, 12);
    assert_eq!(rr.keys(), &vec![1, 2]);
    assert_eq!(rr.try_get(&1), Some(&12));
    assert_eq!(rr.try_get(&2), Some(&20));
    assert_eq!(rr.len(), 2);
}

#[test]
fn len_never_exceeds_capacity() {
    let mut rr: RRCache<u64, u64> = RRCache::new(5);
    for k in 0..200u64 {
        rr.insert(k % 37, k);
        assert!(rr.len() <= rr.capacity());
        let expected = if k < 5 { (k + 1) as usize } else { 5 };
        assert_eq!(rr.len(), expected);
    }
}

#[test]
fn keys_with_a_value_are_the_keys_in_the_slots() {
    let mut rr: RRCache<u64, u64> = RRCache::new(4);
    for k in 0..50u64 {
        rr.insert(k, k + 1000);
        let keys = rr.keys().clone();
        for (i, a) in keys.iter().enumerate() {
            assert_eq!(rr.try_get(a), Some(&(a + 1000)));
            for b in keys.iter().skip(i + 1) {
                assert_ne!(a, b);
            }
        }
        for q in 0..50u64 {
            assert_eq!(rr.try_get(&q).is_some(), keys.contains(&q));
        }
    }
}

#[test]
fn try_get_leaves_the_cache_as_it_is() {
    let mut rr: RRCache<u32, u32> = RRCache::new(2);
    rr.insert(1, 10);
    rr.insert(2, 20);
    let keys = rr.keys().clone();
    assert_eq!(rr.try_get(&1), Some(&10));
    assert_eq!(rr.try_get(&3), None);
    assert_eq!(rr.try_get(&1), Some(&10));
    assert_eq!(rr.keys(), &keys);
    assert_eq!(rr.len(), 2);
}

#[test]
fn full_insert_evicts_exactly_one() {
    let mut rr: RRCache<u32, u32> = RRCache::new(4);
    for k in 0..4u32 {
        rr.insert(k, k);
    }
    for k in 4..100u32 {
        let before = rr.keys().clone();
        rr.insert(k, k);
        let after = rr.keys().clone();
        let changed: Vec<usize> = (0..4).filter(|&i| before[i] != after[i]).collect();
        assert_eq!(changed.len(), 1);
        assert_eq!(after[changed[0]], k);
        assert_eq!(rr.try_get(&before[changed[0]]), None);
        assert_eq!(rr.try_get(&k), Some(&k));
    }
}
