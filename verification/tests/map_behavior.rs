use bucketed_map::HashMap;

#[test]
fn test_hashmap_int() {
    let mut map = HashMap::new();
    map.set(1, 2);
    assert_eq!(map.get(&1), Some(&2))
}

#[test]
fn test_hashmap_str() {
    let mut map = HashMap::new();
    map.set("hello", "world");
    assert_eq!(map.get(&"hello"), Some(&"world"))
}

#[test]
fn miss_on_fresh_map() {
    let map: HashMap<i32, i32> = HashMap::new();
    assert_eq!(map.get(&42), None);
}

#[test]
fn first_write_wins_str_values() {
    let mut map = HashMap::new();
    map.set(5, "a");
    map.set(5, "b");
    assert_eq!(map.get(&5), Some(&"a"));
}

#[test]
fn first_write_wins_ints() {
    let mut map: HashMap<u64, u64> = HashMap::new();
    map.set(7, 1);
    map.set(7, 2);
    map.set(7, 3);
    assert_eq!(map.get(&7), Some(&1));
}

#[test]
fn collision_stress_custom_range() {
    let mut map: HashMap<isize, isize> = HashMap::new_with_custom_range(1_000);
    for v in 0..50_000isize {
        map.set(v, v);
    }
    for v in 0..50_000isize {
        assert_eq!(map.get(&v), Some(&v));
    }
}

#[test]
fn round_trip_single_bucket() {
    let mut map: HashMap<u64, u64> = HashMap::new_with_custom_range(1);
    for k in 0..100u64 {
        map.set(k, k + 1000);
    }
    for k in 0..100u64 {
        assert_eq!(map.get(&k), Some(&(k + 1000)));
    }
    assert_eq!(map.get(&100), None);
}

#[test]
fn bucket_count_independence() {
    for n in [1usize, 2, 3, 7, 100, 1_000] {
        let mut map: HashMap<u32, u32> = HashMap::new_with_custom_range(n);
        map.set(11, 21);
        map.set(12, 22);
        map.set(11, 99);
        assert_eq!(map.get(&11), Some(&21));
        assert_eq!(map.get(&12), Some(&22));
        assert_eq!(map.get(&13), None);
    }
}

#[test]
fn string_keys() {
    let mut map: HashMap<String, i32> = HashMap::new();
    map.set(String::from("alpha"), 1);
    map.set(String::from("beta"), 2);
    map.set(String::from("alpha"), 3);
    assert_eq!(map.get(&String::from("alpha")), Some(&1));
    assert_eq!(map.get(&String::from("beta")), Some(&2));
    assert_eq!(map.get(&String::from("gamma")), None);
}

#[test]
fn empty_and_unicode_string_keys() {
    let mut map: HashMap<&str, i32> = HashMap::new();
    map.set("", 0);
    map.set("héllo wörld", 1);
    map.set("héllo", 2);
    assert_eq!(map.get(&""), Some(&0));
    assert_eq!(map.get(&"héllo wörld"), Some(&1));
    assert_eq!(map.get(&"héllo"), Some(&2));
    assert_eq!(map.get(&"hello"), None);
}

#[test]
fn negative_and_extreme_integer_keys() {
    let mut map: HashMap<i64, i64> = HashMap::new();
    map.set(-1, 10);
    map.set(i64::MIN, 20);
    map.set(i64::MAX, 30);
    map.set(0, 40);
    assert_eq!(map.get(&-1), Some(&10));
    assert_eq!(map.get(&i64::MIN), Some(&20));
    assert_eq!(map.get(&i64::MAX), Some(&30));
    assert_eq!(map.get(&0), Some(&40));
    assert_eq!(map.get(&1), None);
}

#[test]
fn uniqueness_duplicates_counted_once() {
    let mut map: HashMap<u32, u32> = HashMap::new_with_custom_range(10);
    let keys = [3u32, 1, 4, 1, 5, 9, 2, 6, 5, 3, 5];
    for (i, k) in keys.iter().enumerate() {
        map.set(*k, i as u32);
    }
    let mut retrievable: u32 = 0;
    for k in 0..100u32 {
        if map.get(&k).is_some() {
            retrievable += 1;
        }
    }
    assert_eq!(retrievable, 7);
    assert_eq!(map.get(&3), Some(&0));
    assert_eq!(map.get(&1), Some(&1));
    assert_eq!(map.get(&4), Some(&2));
    assert_eq!(map.get(&5), Some(&4));
    assert_eq!(map.get(&9), Some(&5));
    assert_eq!(map.get(&2), Some(&6));
    assert_eq!(map.get(&6), Some(&7));
}

#[test]
fn remaining_integer_key_types() {
    let mut by_usize: HashMap<usize, u8> = HashMap::new();
    by_usize.set(usize::MAX, 1);
    by_usize.set(0, 2);
    assert_eq!(by_usize.get(&usize::MAX), Some(&1));
    assert_eq!(by_usize.get(&0), Some(&2));

    let mut by_i8: HashMap<i8, i8> = HashMap::new_with_custom_range(4);
    by_i8.set(-128, 1);
    by_i8.set(127, 2);
    by_i8.set(-1, 3);
    assert_eq!(by_i8.get(&-128), Some(&1));
    assert_eq!(by_i8.get(&127), Some(&2));
    assert_eq!(by_i8.get(&-1), Some(&3));
    assert_eq!(by_i8.get(&1), None);

    let mut by_i16: HashMap<i16, i16> = HashMap::new();
    by_i16.set(-300, 5);
    assert_eq!(by_i16.get(&-300), Some(&5));
    assert_eq!(by_i16.get(&300), None);
}

#[test]
fn mixed_key_types_coexist() {
    let mut by_u8: HashMap<u8, bool> = HashMap::new_with_custom_range(2);
    by_u8.set(200, true);
    by_u8.set(0, false);
    assert_eq!(by_u8.get(&200), Some(&true));
    assert_eq!(by_u8.get(&0), Some(&false));

    let mut by_bool: HashMap<bool, u16> = HashMap::new_with_custom_range(3);
    by_bool.set(true, 1);
    by_bool.set(false, 2);
    by_bool.set(true, 3);
    assert_eq!(by_bool.get(&true), Some(&1));
    assert_eq!(by_bool.get(&false), Some(&2));
}
