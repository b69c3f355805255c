use image_picker::config::{Category, Config, ConfigError, Input};

fn leaf(name: &str, key: char) -> Category {
    Category { name: name.to_string(), key, sub_categories: Vec::new() }
}

fn node(name: &str, key: char, subs: Vec<Category>) -> Category {
    Category { name: name.to_string(), key, sub_categories: subs }
}

fn config_with(categories: Vec<Category>) -> Config {
    Config {
        input: Input::Dir { root: "images".to_string() },
        output_dir: "out".to_string(),
        categories,
    }
}

#[test]
fn flattening_puts_sub_categories_first() {
    let config = config_with(vec![
        node("animals", 'a', vec![leaf("cats", 'c'), leaf("dogs", 'd')]),
        leaf("plants", 'p'),
    ]);
    let flat = config.flatten_categories();
    let names: Vec<&str> = flat.iter().map(|c| c.name.as_str()).collect();
    assert_eq!(names, vec!["cats", "dogs", "animals", "plants"]);
    assert!(flat.iter().all(|c| c.sub_categories.is_empty()));
}

#[test]
fn unique_names_and_keys_pass_validation() {
    let config = config_with(vec![
        node("animals", 'a', vec![leaf("cats", 'c')]),
        leaf("plants", 'p'),
    ]);
    assert!(config.validate().is_ok());
}

#[test]
fn duplicate_name_is_reported_with_its_count() {
    let flat = vec![leaf("x", 'a'), leaf("y", 'b'), leaf("x", 'c'), leaf("y", 'd')];
    match Config::check_name_uniqueness(&flat) {
        Err(ConfigError::DuplicateName((name, count))) => {
            assert_eq!(name, "x");
            assert_eq!(count, 2);
        }
        _ => panic!("a duplicated name must be rejected"),
    }
}

#[test]
fn duplicate_key_reports_every_name_bound_to_it() {
    let flat = vec![leaf("cats", 'x'), leaf("dogs", 'y'), leaf("plants", 'x')];
    match Config::check_key_uniqueness(&flat) {
        Err(ConfigError::DuplicateBindings((key, names))) => {
            assert_eq!(key, 'x');
            assert_eq!(names, vec!["cats".to_string(), "plants".to_string()]);
        }
        _ => panic!("a duplicated key must be rejected"),
    }
}

#[test]
fn name_check_runs_before_key_check() {
    // both a name and a key are duplicated, in different pairs
    let config = config_with(vec![leaf("same", 'a'), leaf("same", 'b'), leaf("other", 'a')]);
    match config.validate() {
        Err(ConfigError::DuplicateName((name, count))) => {
            assert_eq!(name, "same");
            assert_eq!(count, 2);
        }
        _ => panic!("the duplicated name must be reported first"),
    }
}

#[test]
fn duplicates_hidden_in_sub_categories_are_found() {
    let config = config_with(vec![
        node("animals", 'a', vec![leaf("cats", 'c')]),
        node("plants", 'p', vec![leaf("cats", 'q')]),
    ]);
    assert!(matches!(config.validate(), Err(ConfigError::DuplicateName(_))));
}

#[test]
fn empty_category_list_is_valid() {
    let config = config_with(Vec::new());
    assert!(config.validate().is_ok());
    assert!(config.flatten_categories().is_empty());
}
