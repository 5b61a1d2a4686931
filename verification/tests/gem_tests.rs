use lootgen::gems::{
    bracket_range, choose_random_gem_attribute, choose_random_gem_type, Gem, GemAttribute,
    GemGenerator, GemType,
};
use lootgen::GenError;

fn attr(name: &str, delta: i64, weight: u64) -> GemAttribute {
    GemAttribute { name: name.to_string(), value_category_delta: delta, weight }
}

fn mineral(name: &str, min: u64, max: u64, category: i64, weight: u64) -> GemType {
    GemType {
        name: name.to_string(),
        value_min: min,
        value_max: max,
        value_category: category,
        weight,
    }
}

fn gem_with_category(category: i64) -> Gem {
    Gem {
        mineral_type: mineral("quartz", 1, 10, category, 1),
        base_value: 5,
        cut: attr("brilliant", 0, 1),
        size: attr("small", 0, 1),
        quality: attr("clear", 0, 1),
    }
}

#[test]
fn bracket_table_matches_the_fixed_ranges() {
    for idx in 0..=4 {
        assert_eq!(bracket_range(idx), (1, 1));
    }
    assert_eq!(bracket_range(5), (1, 25));
    assert_eq!(bracket_range(6), (25, 75));
    assert_eq!(bracket_range(7), (75, 250));
    assert_eq!(bracket_range(8), (250, 750));
    assert_eq!(bracket_range(9), (750, 2500));
    assert_eq!(bracket_range(10), (2500, 10000));
    assert_eq!(bracket_range(11), (10000, 20000));
    assert_eq!(bracket_range(12), (20000, 40000));
    assert_eq!(bracket_range(13), (40000, 80000));
    assert_eq!(bracket_range(14), (80000, 200000));
    assert_eq!(bracket_range(15), (200000, 400000));
    assert_eq!(bracket_range(16), (400000, 800000));
    assert_eq!(bracket_range(17), (800000, 1000000));
}

#[test]
fn low_category_values_fall_in_the_flat_range() {
    // category below six: every sample lands in [0.10, 5.00) gold pieces,
    // i.e. [10, 500) hundredths
    let gem = gem_with_category(5);
    for _ in 0..1000 {
        let v = gem.get_value();
        assert!((10..500).contains(&v), "value was {}", v);
    }
}

#[test]
fn top_category_values_fall_in_the_top_bracket() {
    // category exactly seventeen: [800000, 1000000) gold pieces
    let gem = gem_with_category(17);
    for _ in 0..1000 {
        let v = gem.get_value();
        assert!((80_000_000..100_000_000).contains(&v), "value was {}", v);
    }
}

#[test]
fn category_above_seventeen_is_clamped_to_the_top_bracket() {
    let gem = gem_with_category(25);
    for _ in 0..1000 {
        let v = gem.get_value();
        assert!((80_000_000..100_000_000).contains(&v), "value was {}", v);
    }
}

#[test]
fn category_sums_type_and_attribute_deltas() {
    // 10 + 3 + 2 + 2 = 17: the top bracket
    let gem = Gem {
        mineral_type: mineral("diamond", 1, 10, 10, 1),
        base_value: 5,
        cut: attr("brilliant", 3, 1),
        size: attr("huge", 2, 1),
        quality: attr("flawless", 2, 1),
    };
    for _ in 0..200 {
        let v = gem.get_value();
        assert!((80_000_000..100_000_000).contains(&v), "value was {}", v);
    }
}

#[test]
fn mid_category_values_fall_in_their_bracket() {
    // category six: [25, 75) gold pieces, in whole gold pieces
    let gem = gem_with_category(6);
    for _ in 0..1000 {
        let v = gem.get_value();
        assert!((2500..7500).contains(&v), "value was {}", v);
        assert_eq!(v % 100, 0);
    }
}

#[test]
fn choose_random_gem_type_rejects_zero_weights() {
    let ls = vec![mineral("a", 1, 2, 1, 0)];
    assert!(matches!(
        choose_random_gem_type(&ls),
        Err(GenError::InvalidDistribution)
    ));
}

#[test]
fn choose_random_gem_attribute_draws_from_the_table() {
    let ls = vec![attr("only", 2, 7)];
    let got = choose_random_gem_attribute(&ls).unwrap();
    assert_eq!(got.name, "only");
    assert_eq!(got.value_category_delta, 2);
    assert_eq!(got.weight, 7);
}

#[test]
fn create_random_gem_assembles_from_all_four_tables() {
    let generator = GemGenerator::new(
        vec![mineral("ruby", 100, 200, 8, 1)],
        vec![attr("rose", 1, 1)],
        vec![attr("cloudy", -1, 1)],
        vec![attr("large", 2, 1)],
    );
    for _ in 0..100 {
        let gem = generator.create_random_gem().unwrap();
        assert_eq!(gem.mineral_type.name, "ruby");
        assert_eq!(gem.cut.name, "rose");
        assert_eq!(gem.quality.name, "cloudy");
        assert_eq!(gem.size.name, "large");
        assert!((100..200).contains(&gem.base_value));
    }
}

#[test]
fn create_random_gem_fails_on_a_zero_weight_table() {
    let generator = GemGenerator::new(
        vec![mineral("ruby", 100, 200, 8, 1)],
        vec![attr("rose", 1, 0)],
        vec![attr("cloudy", -1, 1)],
        vec![attr("large", 2, 1)],
    );
    assert!(matches!(
        generator.create_random_gem(),
        Err(GenError::InvalidDistribution)
    ));
}
