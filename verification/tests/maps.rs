use defunct::values::maps::{ValMap, SMALL_MAP_MAX};
use defunct::values::{Symbol, Val};

fn int_val(i: i32) -> Val {
    Val::from_int(i)
}

#[test]
fn insert_increases_size() {
    let mut map = ValMap::new();
    for i in 0..(SMALL_MAP_MAX + 2) as i32 {
        assert!(map.len() == i as usize);
        map.insert(int_val(i), int_val(i));
    }
}

#[test]
fn double_insert_overwrites() {
    let mut map = ValMap::new();
    map.insert(int_val(2), int_val(4));
    map.insert(int_val(2), int_val(25));
    assert_eq!(map.get(int_val(2)), int_val(25));
}

#[test]
fn get() {
    let mut map = ValMap::new();
    map.insert(int_val(2), int_val(4));
    assert_eq!(map.get(int_val(2)), int_val(4));
}

#[test]
fn remove() {
    let mut map = ValMap::new();
    map.insert(int_val(2), int_val(4));
    map.remove(int_val(2));
    assert_eq!(map.get(int_val(2)), Symbol::nil());
}

#[test]
fn remove_many() {
    let mut map = ValMap::new();
    for i in 0..5 {
        map.insert(int_val(i), int_val(i));
    }

    for i in (0..5).rev() {
        assert_eq!(map.remove(int_val(i)), int_val(i));
        assert!(map.len() == i as usize);
    }

    for i in 0..5 {
        map.insert(int_val(i), int_val(i));
    }

    for i in 0..5 {
        map.remove(int_val(i));
        assert!(map.len() == 4 - i as usize);
    }
}

#[test]
fn map_remains_small() {
    let mut map = ValMap::new();
    for i in 0..SMALL_MAP_MAX as i32 {
        map.insert(int_val(i), int_val(i));
    }
    for i in 0..SMALL_MAP_MAX as i32 {
        map.remove(int_val(i));
    }
    assert!(map.len() == 0);
    if let &ValMap::HashMap(..) = &map {
        panic!("Should not have switched representations!");
    }
}

#[test]
fn nil_on_not_found() {
    let mut map = ValMap::new();
    for i in 0..SMALL_MAP_MAX as i32 {
        map.insert(int_val(i), int_val(i));
    }
    assert_eq!(map.get(int_val(1000000)), Symbol::nil());
}

#[test]
fn the_thirty_second_key_moves_the_map_to_the_hash_table() {
    let mut map = ValMap::new();
    for i in 0..SMALL_MAP_MAX as i32 {
        assert_eq!(map.insert(int_val(i), int_val(10 * i)), Val::nil());
    }
    assert!(matches!(map, ValMap::SmallMap { .. }));
    assert_eq!(map.insert(int_val(3), int_val(33)), int_val(30));
    assert!(matches!(map, ValMap::SmallMap { .. }));
    assert_eq!(map.len(), 31);
    assert_eq!(map.insert(int_val(100), int_val(1000)), Val::nil());
    assert!(matches!(map, ValMap::HashMap(..)));
    assert_eq!(map.len(), 32);
    for i in 0..SMALL_MAP_MAX as i32 {
        let expected = if i == 3 { int_val(33) } else { int_val(10 * i) };
        assert_eq!(map.get(int_val(i)), expected);
    }
    assert_eq!(map.get(int_val(100)), int_val(1000));
    assert_eq!(map.insert(int_val(100), int_val(7)), int_val(1000));
    assert_eq!(map.len(), 32);
    assert_eq!(map.remove(int_val(100)), int_val(7));
    assert_eq!(map.get(int_val(100)), Val::nil());
    assert_eq!(map.remove(int_val(100)), Val::nil());
    assert_eq!(map.len(), 31);
    assert!(matches!(map, ValMap::HashMap(..)));
    map.clear();
    assert_eq!(map.len(), 0);
    assert!(matches!(map, ValMap::SmallMap { .. }));
}

#[test]
fn keys_are_compared_by_their_words() {
    let mut map = ValMap::new();
    let one_int = Val::from_int(1);
    let one_num = Val::from_num(1.0f64.to_bits());
    map.insert(one_int, int_val(10));
    map.insert(one_num, int_val(20));
    assert_eq!(map.len(), 2);
    assert_eq!(map.get(one_int), int_val(10));
    assert_eq!(map.get(one_num), int_val(20));
    assert_eq!(map.remove(one_int), int_val(10));
    assert_eq!(map.get(one_num), int_val(20));
    assert_eq!(map.len(), 1);
}

#[test]
fn every_entry_is_visited_once() {
    let mut map = ValMap::new();
    for i in 0..5 {
        map.insert(int_val(i), int_val(i * i));
    }
    assert_eq!(
        map.iter(),
        (0..5).map(|i| (int_val(i), int_val(i * i))).collect::<Vec<_>>()
    );
    for i in 5..40 {
        map.insert(int_val(i), int_val(i * i));
    }
    let mut pairs = map.iter();
    pairs.sort_by_key(|(k, _)| k.get_int());
    assert_eq!(pairs, (0..40).map(|i| (int_val(i), int_val(i * i))).collect::<Vec<_>>());
}

#[test]
fn has_key_tells_a_key_under_nil_from_no_key() {
    let mut m = ValMap::new();
    assert!(!m.has_key(Val::from_int(1)));
    m.insert(Val::from_int(1), Val::nil());
    assert!(m.has_key(Val::from_int(1)));
    assert_eq!(m.get(Val::from_int(1)), Val::nil());
    assert!(!m.has_key(Val::from_int(2)));
    for i in 0..40 {
        m.insert(Val::from_int(100 + i), Val::from_int(i));
    }
    assert!(matches!(m, ValMap::HashMap(_)));
    assert!(m.has_key(Val::from_int(1)));
    assert!(m.has_key(Val::from_int(139)));
    assert!(!m.has_key(Val::from_int(140)));
    m.remove(Val::from_int(1));
    assert!(!m.has_key(Val::from_int(1)));
}

#[test]
fn a_second_put_overwrites_in_both_forms() {
    for n in [3, 31, 32, 200] {
        let mut m = ValMap::new();
        for i in 0..n {
            assert_eq!(m.insert(Val::from_int(i), Val::from_int(i * 2)), Val::nil());
        }
        assert_eq!(m.len(), n as usize);
        for i in 0..n {
            assert_eq!(m.insert(Val::from_int(i), Val::from_int(i * 3)), Val::from_int(i * 2));
            assert_eq!(m.len(), n as usize);
        }
        for i in 0..n {
            assert_eq!(m.get(Val::from_int(i)), Val::from_int(i * 3));
        }
        assert_eq!(matches!(m, ValMap::SmallMap { .. }), n <= 31);
    }
}
