use ckbtc_minter::intmap::IntMap;
use std::collections::BTreeMap;

fn from_pairs(pairs: impl Iterator<Item = (u64, u64)>) -> IntMap<u64> {
    let mut m = IntMap::new();
    for (k, v) in pairs {
        m = m.insert(k, v);
    }
    m
}

fn entries(m: &IntMap<u64>) -> Vec<(u64, u64)> {
    (0..m.len())
        .map(|i| {
            let k = m.key_at(i);
            (k, *m.get(k).unwrap())
        })
        .collect()
}

#[test]
fn test_int_map_consecutive_inserts() {
    let m: IntMap<u64> = from_pairs((0..100u64).map(|x| (x, x + 100)));

    for i in 0..100u64 {
        assert_eq!(
            m.get(i).cloned(),
            Some(i + 100),
            "failed to find inserted values, map: {:?}",
            entries(&m)
        );
    }
}

#[test]
fn test_int_map_sparse_inserts() {
    let m: IntMap<u64> = from_pairs((0..100u64).filter(|x| x % 2 == 0).map(|x| (x, x + 100)));

    for i in 0..100u64 {
        if i % 2 == 0 {
            assert_eq!(m.get(i).cloned(), Some(i + 100));
        } else {
            assert_eq!(m.get(i).cloned(), None);
        }
    }
}

#[test]
fn test_int_map_union() {
    let lmap: IntMap<u64> = from_pairs((1..101u64).map(|x| (x, x)));
    let rmap: IntMap<u64> = from_pairs((50..150u64).map(|x| (x, x + 100)));
    let m = rmap.union(lmap);

    assert!(m.get(0).is_none());
    for i in 1..50u64 {
        assert_eq!(m.get(i).cloned(), Some(i));
    }
    for i in 50..150u64 {
        assert_eq!(m.get(i).cloned(), Some(i + 100), "Map: {:?}", entries(&m));
    }
    assert!(m.get(150).is_none());
}

#[test]
fn test_iter() {
    let int_map: IntMap<u64> = from_pairs((1..100u64).map(|x| (x, x)));
    let btree_map: BTreeMap<u64, u64> = (1..100u64).map(|x| (x, x)).collect();

    assert!(entries(&int_map)
        .into_iter()
        .eq(btree_map.iter().map(|(k, v)| (*k, *v))));
}

#[test]
fn test_int_map_bounds() {
    let m: IntMap<u64> = from_pairs((10..=100u64).map(|x| (7 * x, 0)));
    for i in 0..800 {
        let (start, end) = m.bounds(i);
        let start = start.map(|(k, v)| (k, *v));
        let end = end.map(|(k, v)| (k, *v));
        if (70..=700).contains(&i) {
            assert_eq!(start, Some(((i / 7) * 7, 0)));
            assert_eq!(end, Some((((i + 6) / 7) * 7, 0)));
        } else if i < 70 {
            assert_eq!(start, None);
            assert_eq!(end, Some((70, 0)));
        } else {
            assert_eq!(start, Some((700, 0)));
            assert_eq!(end, None)
        }
    }
}

#[test]
fn test_max_key() {
    let m = IntMap::<u64>::new();
    assert_eq!(m.max_key(), None);
    let m = m.insert(100, 101);
    assert_eq!(m.max_key(), Some(100));
    let m = m.insert(10, 101);
    assert_eq!(m.max_key(), Some(100));
    let m = m.insert(1000, 101);
    assert_eq!(m.max_key(), Some(1000));
    let m = m.insert(1000000, 101);
    assert_eq!(m.max_key(), Some(1000000));
}

#[test]
fn test_max_key_range() {
    let mut m = IntMap::<u64>::new();
    for i in 0..1000u64 {
        m = m.insert(i, i + 100);
        assert_eq!(m.max_key(), Some(i));
    }
}

#[test]
fn insert_replaces_existing_binding() {
    let m = IntMap::new().insert(5, 10).insert(5, 11);
    assert_eq!(m.len(), 1);
    assert_eq!(m.get(5).cloned(), Some(11));
}

#[test]
fn bounds_on_empty_map() {
    let m = IntMap::<u64>::new();
    let (start, end) = m.bounds(7);
    assert!(start.is_none());
    assert!(end.is_none());
}
