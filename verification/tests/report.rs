use autosplash::config::{validate, Config, RawSettings};
use autosplash::report::plan_summary;
use autosplash::schedule::RunMode;

fn config_of(categories: &str, amount: &str, unit: &str) -> Config {
    let raw = RawSettings {
        categories: Some(categories.to_string()),
        daily: Some("true".to_string()),
        res_width: Some("1920".to_string()),
        res_height: Some("1080".to_string()),
        int_amount: Some(amount.to_string()),
        int_unit: Some(unit.to_string()),
    };
    validate(&raw).unwrap_or_else(|e| panic!("{:?}", e))
}

#[test]
fn one_shot_summary_names_the_categories() {
    let config = config_of("nature, ocean", "1", "hours");
    assert_eq!(
        plan_summary(&config, RunMode::Once),
        "Pulling a single random photo from categories nature, ocean"
    );
}

#[test]
fn repeating_summary_tells_the_interval() {
    let config = config_of("nature, ocean", "1", "hours");
    assert_eq!(
        plan_summary(&config, RunMode::Repeating),
        "Pulling random photos from categories nature, ocean every hour"
    );
}

#[test]
fn summary_says_category_for_one() {
    let config = config_of("nature", "30", "minutes");
    assert_eq!(
        plan_summary(&config, RunMode::Once),
        "Pulling a single random photo from category nature"
    );
    assert_eq!(
        plan_summary(&config, RunMode::Repeating),
        "Pulling random photos from category nature every 30 minutes"
    );
}

#[test]
fn summary_joins_many_categories() {
    let config = config_of("nature, ocean, deep space, cats", "2", "days");
    assert_eq!(
        plan_summary(&config, RunMode::Repeating),
        "Pulling random photos from categories nature, ocean, deep space, cats every 2 days"
    );
}

#[test]
fn summary_uses_the_singular_for_exactly_one() {
    assert_eq!(
        plan_summary(&config_of("a", "1", "seconds"), RunMode::Repeating),
        "Pulling random photos from category a every second"
    );
    assert_eq!(
        plan_summary(&config_of("a", "1.0", "minutes"), RunMode::Repeating),
        "Pulling random photos from category a every minute"
    );
    assert_eq!(
        plan_summary(&config_of("a", "+01.00", "hours"), RunMode::Repeating),
        "Pulling random photos from category a every hour"
    );
    assert_eq!(
        plan_summary(&config_of("a", "1", "days"), RunMode::Repeating),
        "Pulling random photos from category a every day"
    );
}

#[test]
fn summary_writes_the_amount_in_its_shortest_form() {
    assert_eq!(
        plan_summary(&config_of("a", "1.50", "hours"), RunMode::Repeating),
        "Pulling random photos from category a every 1.5 hours"
    );
    assert_eq!(
        plan_summary(&config_of("a", "0.5", "seconds"), RunMode::Repeating),
        "Pulling random photos from category a every 0.5 seconds"
    );
    assert_eq!(
        plan_summary(&config_of("a", "010", "minutes"), RunMode::Repeating),
        "Pulling random photos from category a every 10 minutes"
    );
    assert_eq!(
        plan_summary(&config_of("a", "0", "days"), RunMode::Repeating),
        "Pulling random photos from category a every 0 days"
    );
}

#[test]
fn summary_shows_the_categories_as_they_were_written() {
    for written in ["nature", "nature, ocean", "a, , b", ", ", "deep sea,  space", ""] {
        let config = config_of(written, "1", "hours");
        let noun = if config.categories.len() == 1 { "category" } else { "categories" };
        assert_eq!(
            plan_summary(&config, RunMode::Once),
            format!("Pulling a single random photo from {} {}", noun, written)
        );
    }
}

#[test]
fn summary_with_an_amount_written_with_an_exponent() {
    assert_eq!(
        plan_summary(&config_of("a", "1.50e3", "seconds"), RunMode::Repeating),
        "Pulling random photos from category a every 1.5e3 seconds"
    );
    assert_eq!(
        plan_summary(&config_of("a", "10e-1", "hours"), RunMode::Repeating),
        "Pulling random photos from category a every hour"
    );
}
