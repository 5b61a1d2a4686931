use lootgen::items::{GenericItem, LiquidContainer};
use lootgen::wine::{Wine, WineColor, WineGenerator};
use lootgen::GenError;

fn item(name: &str, value_mod: u64, weight: u64, group: Option<&str>) -> GenericItem {
    GenericItem {
        name: name.to_string(),
        value_mod,
        weight,
        ex_pool: group.map(|g| g.to_string()),
    }
}

fn container(name: &str, value_mod: u64, weight: u64, oz: u64) -> LiquidContainer {
    LiquidContainer { name: name.to_string(), value_mod, weight, oz }
}

#[test]
fn total_value_is_the_exact_product() {
    // two notes at 1.1 and 0.9, one feel at 1.0, container 1.2 at twelve
    // ounces, base value one: 1.1 * 0.9 * 1.0 * 1.2 * 12 * 1 = 14.256,
    // held exactly as 14_256_000_000_000 / 1000^4
    let wine = Wine {
        notes: vec![item("plum", 1100, 1, None), item("oak", 900, 1, None)],
        feels: vec![item("smooth", 1000, 1, None)],
        container: container("bottle", 1200, 1, 12),
        base_value: 1,
        color: WineColor::Red,
    };
    let (num, scale) = wine.total_value().unwrap();
    assert_eq!(num, 14_256_000_000_000);
    assert_eq!(scale, 4);
    assert_eq!(num as f64 / 1000f64.powi(scale as i32), 14.256);
}

#[test]
fn total_value_with_no_notes_or_feels_is_the_container_share() {
    let wine = Wine {
        notes: vec![],
        feels: vec![],
        container: container("cask", 1500, 1, 40),
        base_value: 2,
        color: WineColor::White,
    };
    // 1.5 * 40 * 2 = 120, held as 120_000 / 1000^1
    assert_eq!(wine.total_value(), Some((120_000, 1)));
}

#[test]
fn total_value_with_a_zero_modifier_is_zero() {
    let wine = Wine {
        notes: vec![item("plum", 0, 1, None)],
        feels: vec![item("smooth", 1000, 1, None)],
        container: container("bottle", 1200, 1, 12),
        base_value: 1,
        color: WineColor::Red,
    };
    assert_eq!(wine.total_value(), Some((0, 3)));
}

#[test]
fn total_value_overflow_is_reported() {
    let huge = u64::MAX;
    let wine = Wine {
        notes: vec![item("a", huge, 1, None), item("b", huge, 1, None)],
        feels: vec![item("c", huge, 1, None)],
        container: container("bottle", huge, 1, huge),
        base_value: huge,
        color: WineColor::Red,
    };
    assert_eq!(wine.total_value(), None);
}

fn sample_generator() -> WineGenerator {
    WineGenerator {
        notes_vec: vec![
            item("plum", 1100, 3, Some("fruit")),
            item("cherry", 1050, 3, Some("fruit")),
            item("oak", 900, 2, None),
            item("smoke", 950, 2, None),
            item("honey", 1200, 1, None),
        ],
        feels_vec: vec![
            item("smooth", 1000, 2, None),
            item("tannic", 950, 2, None),
            item("crisp", 1050, 2, None),
        ],
        container_vec: vec![container("bottle", 1200, 5, 12), container("cask", 800, 1, 160)],
    }
}

#[test]
fn create_wine_assembles_within_the_contract() {
    let generator = sample_generator();
    for _ in 0..100 {
        let wine = generator.create_wine().unwrap();
        assert!((1..=3).contains(&wine.notes.len()));
        assert!((1..=3).contains(&wine.feels.len()));
        assert_eq!(wine.base_value, 1);
        assert!(wine.color == WineColor::White || wine.color == WineColor::Red);
        assert!(wine.container.name == "bottle" || wine.container.name == "cask");
        // at most one note of the shared fruit group
        let fruity = wine
            .notes
            .iter()
            .filter(|n| n.ex_pool.as_deref() == Some("fruit"))
            .count();
        assert!(fruity <= 1, "chose {} fruit notes", fruity);
        // no duplicate notes
        for i in 0..wine.notes.len() {
            for j in 0..i {
                assert!(!lootgen::items::items_equal(&wine.notes[i], &wine.notes[j]));
            }
        }
    }
}

#[test]
fn create_wine_fails_on_zero_weight_containers() {
    let mut generator = sample_generator();
    generator.container_vec = vec![container("bottle", 1200, 0, 12)];
    assert!(matches!(
        generator.create_wine(),
        Err(GenError::InvalidDistribution)
    ));
}

#[test]
fn create_wine_can_run_out_of_eligible_notes() {
    // both notes share one exclusion group: any session needing two or
    // three notes must fail, one-note sessions succeed
    let mut generator = sample_generator();
    generator.notes_vec = vec![
        item("plum", 1100, 1, Some("fruit")),
        item("cherry", 1050, 1, Some("fruit")),
    ];
    let mut saw_ok = false;
    let mut saw_infeasible = false;
    for _ in 0..200 {
        match generator.create_wine() {
            Ok(wine) => {
                assert_eq!(wine.notes.len(), 1);
                saw_ok = true;
            }
            Err(GenError::InfeasibleSelection) => saw_infeasible = true,
            Err(e) => panic!("unexpected error {:?}", e),
        }
    }
    assert!(saw_ok && saw_infeasible);
}
