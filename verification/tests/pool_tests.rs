use lootgen::items::GenericItem;
use lootgen::pools::{auto_populate_mexpools, create_mexpool, expool_vec_contains_item, ExPool};

fn item(name: &str, group: Option<&str>) -> GenericItem {
    GenericItem {
        name: name.to_string(),
        value_mod: 1000,
        weight: 1,
        ex_pool: group.map(|g| g.to_string()),
    }
}

#[test]
fn create_mexpool_has_capacity_one_and_empty_count() {
    let p = create_mexpool("earthy".to_string());
    assert_eq!(p.name, "earthy");
    assert_eq!(p.max_count, 1);
    assert_eq!(p.count, 0);
}

#[test]
fn increment_saturates_at_capacity() {
    let mut p = create_mexpool("earthy".to_string());
    assert!(!p.is_full());
    p.increment();
    assert_eq!(p.count, 1);
    assert!(p.is_full());
    p.increment();
    assert_eq!(p.count, 1);
    assert!(p.is_full());
}

#[test]
fn contains_finds_only_present_names() {
    let ls = vec![create_mexpool("a".to_string()), create_mexpool("b".to_string())];
    assert!(expool_vec_contains_item(&ls, &"a".to_string()));
    assert!(expool_vec_contains_item(&ls, &"b".to_string()));
    assert!(!expool_vec_contains_item(&ls, &"c".to_string()));
    assert!(!expool_vec_contains_item(&Vec::new(), &"a".to_string()));
}

#[test]
fn build_pools_one_per_distinct_group_first_seen_order() {
    let items = vec![
        item("n1", Some("earthy")),
        item("n2", None),
        item("n3", Some("fruity")),
        item("n4", Some("earthy")),
    ];
    let pools = auto_populate_mexpools(&items);
    assert_eq!(pools.len(), 2);
    assert_eq!(pools[0].name, "earthy");
    assert_eq!(pools[1].name, "fruity");
    for p in &pools {
        assert_eq!(p.max_count, 1);
        assert_eq!(p.count, 0);
    }
}

#[test]
fn build_pools_twice_gives_identical_structure() {
    let items = vec![
        item("n1", Some("earthy")),
        item("n2", Some("fruity")),
        item("n3", None),
        item("n4", Some("earthy")),
        item("n5", Some("floral")),
    ];
    let a = auto_populate_mexpools(&items);
    let b = auto_populate_mexpools(&items);
    assert_eq!(a.len(), b.len());
    for (pa, pb) in a.iter().zip(b.iter()) {
        assert_eq!(pa.name, pb.name);
        assert_eq!(pa.max_count, pb.max_count);
    }
}

#[test]
fn expool_lookup_takes_the_last_match() {
    let pools = vec![
        ExPool { name: "x".to_string(), max_count: 1, count: 0 },
        ExPool { name: "y".to_string(), max_count: 1, count: 0 },
        ExPool { name: "x".to_string(), max_count: 1, count: 0 },
    ];
    let it = item("n", Some("x"));
    assert_eq!(it.get_expool_index(&pools), Some(2));
    let it2 = item("n", Some("y"));
    assert_eq!(it2.get_expool_index(&pools), Some(1));
}

#[test]
fn expool_lookup_none_without_group_or_match() {
    let pools = vec![ExPool { name: "x".to_string(), max_count: 1, count: 0 }];
    assert_eq!(item("n", None).get_expool_index(&pools), None);
    assert_eq!(item("n", Some("z")).get_expool_index(&pools), None);
}
