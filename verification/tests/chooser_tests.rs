use lootgen::chooser::{choose_generic_items, vec_contains_item};
use lootgen::items::{items_equal, GenericItem};
use lootgen::pools::auto_populate_mexpools;
use lootgen::GenError;

fn item(name: &str, weight: u64, group: Option<&str>) -> GenericItem {
    GenericItem {
        name: name.to_string(),
        value_mod: 1000,
        weight,
        ex_pool: group.map(|g| g.to_string()),
    }
}

#[test]
fn items_equal_goes_by_every_field() {
    let a = item("a", 1, Some("g"));
    assert!(items_equal(&a, &item("a", 1, Some("g"))));
    assert!(!items_equal(&a, &item("b", 1, Some("g"))));
    assert!(!items_equal(&a, &item("a", 2, Some("g"))));
    assert!(!items_equal(&a, &item("a", 1, Some("h"))));
    assert!(!items_equal(&a, &item("a", 1, None)));
}

#[test]
fn vec_contains_item_goes_by_full_equality() {
    let ls = vec![item("a", 1, None), item("b", 2, Some("g"))];
    assert!(vec_contains_item(&ls, &item("a", 1, None)));
    assert!(vec_contains_item(&ls, &item("b", 2, Some("g"))));
    assert!(!vec_contains_item(&ls, &item("a", 2, None)));
    assert!(!vec_contains_item(&Vec::new(), &item("a", 1, None)));
}

#[test]
fn chooser_returns_exactly_the_requested_count() {
    let ls = vec![item("a", 1, None), item("b", 5, None), item("c", 2, None)];
    for count in 0..=3 {
        let mut pools = auto_populate_mexpools(&ls);
        let chosen = choose_generic_items(&ls, &mut pools, count).unwrap();
        assert_eq!(chosen.len(), count);
    }
}

#[test]
fn chooser_never_returns_duplicates() {
    let ls = vec![
        item("a", 1, None),
        item("b", 10, None),
        item("c", 3, None),
        item("d", 7, None),
    ];
    for _ in 0..50 {
        let mut pools = auto_populate_mexpools(&ls);
        let chosen = choose_generic_items(&ls, &mut pools, 4).unwrap();
        assert_eq!(chosen.len(), 4);
        for i in 0..chosen.len() {
            for j in 0..i {
                assert!(!items_equal(&chosen[i], &chosen[j]));
            }
        }
    }
}

#[test]
fn chooser_takes_at_most_one_item_per_exclusion_group() {
    // three items share one group of capacity one, two are free
    let ls = vec![
        item("g1", 5, Some("shared")),
        item("g2", 5, Some("shared")),
        item("g3", 5, Some("shared")),
        item("f1", 1, None),
        item("f2", 1, None),
    ];
    for _ in 0..50 {
        let mut pools = auto_populate_mexpools(&ls);
        let chosen = choose_generic_items(&ls, &mut pools, 3).unwrap();
        let shared = chosen
            .iter()
            .filter(|c| c.ex_pool.as_deref() == Some("shared"))
            .count();
        assert!(shared <= 1, "chose {} members of the shared group", shared);
    }
}

#[test]
fn chooser_fails_when_count_exceeds_satisfiable_items() {
    // only one of the two group members may ever be chosen
    let ls = vec![item("a", 1, Some("g")), item("b", 1, Some("g"))];
    let mut pools = auto_populate_mexpools(&ls);
    assert_eq!(
        choose_generic_items(&ls, &mut pools, 2),
        Err(GenError::InfeasibleSelection)
    );
}

#[test]
fn chooser_fails_when_count_exceeds_distinct_items() {
    let ls = vec![item("a", 1, None), item("b", 1, None), item("c", 1, None)];
    let mut pools = auto_populate_mexpools(&ls);
    assert_eq!(
        choose_generic_items(&ls, &mut pools, 4),
        Err(GenError::InfeasibleSelection)
    );
}

#[test]
fn chooser_rejects_a_zero_weight_table() {
    let ls = vec![item("a", 0, None), item("b", 0, None)];
    let mut pools = auto_populate_mexpools(&ls);
    assert_eq!(
        choose_generic_items(&ls, &mut pools, 1),
        Err(GenError::InvalidDistribution)
    );
    let empty: Vec<GenericItem> = Vec::new();
    let mut no_pools = auto_populate_mexpools(&empty);
    assert_eq!(
        choose_generic_items(&empty, &mut no_pools, 0),
        Err(GenError::InvalidDistribution)
    );
}

#[test]
fn chooser_counts_chosen_items_against_their_pools() {
    let ls = vec![item("a", 3, Some("g")), item("b", 2, None)];
    let mut pools = auto_populate_mexpools(&ls);
    let chosen = choose_generic_items(&ls, &mut pools, 2).unwrap();
    assert_eq!(chosen.len(), 2);
    assert_eq!(pools.len(), 1);
    assert_eq!(pools[0].name, "g");
    assert_eq!(pools[0].count, 1);
}
