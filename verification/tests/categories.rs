use image_picker::category::{CategoriesHolder, CategoryTreeItem};
use image_picker::config::Category;

fn leaf(name: &str, key: char) -> Category {
    Category { name: name.to_string(), key, sub_categories: Vec::new() }
}

#[test]
fn item_keeps_its_name_key_and_paths() {
    let mut item = CategoryTreeItem::new("cats".to_string(), 'c');
    assert_eq!(item.name().as_str(), "cats");
    assert_eq!(item.key(), 'c');
    assert!(item.get_paths().is_empty());

    item.add_path("a.png".to_string());
    item.add_path("b.png".to_string());
    assert_eq!(item.get_paths(), &vec!["a.png".to_string(), "b.png".to_string()]);

    item.set_paths(vec!["c.png".to_string()]);
    assert_eq!(item.get_paths(), &vec!["c.png".to_string()]);
}

#[test]
fn category_file_sits_under_the_output_directory() {
    let item = CategoryTreeItem::new("cats".to_string(), 'c');
    assert_eq!(item.make_category_path("out"), "out/cats.csv");
}

#[test]
fn labeling_goes_to_the_selected_category_and_clears_the_selection() {
    let mut holder =
        CategoriesHolder::from_categories(vec![leaf("cats", 'c'), leaf("dogs", 'd')]);
    assert!(!holder.is_there_a_selected_category());
    assert!(!holder.add_path_to_selected_category("a.png".to_string()));

    assert!(holder.select_category("dogs".to_string()));
    assert!(holder.is_there_a_selected_category());
    assert!(holder.add_path_to_selected_category("a.png".to_string()));
    assert!(!holder.is_there_a_selected_category());

    assert_eq!(holder.item_at(0).get_paths().len(), 0);
    assert_eq!(holder.item_at(1).get_paths(), &vec!["a.png".to_string()]);
}

#[test]
fn selecting_an_unknown_category_changes_nothing() {
    let mut holder = CategoriesHolder::from_categories(vec![leaf("cats", 'c')]);
    assert!(!holder.select_category("birds".to_string()));
    assert!(!holder.is_there_a_selected_category());
}

#[test]
fn all_labeled_paths_come_back_as_the_exclusion_list() {
    let mut holder =
        CategoriesHolder::from_categories(vec![leaf("cats", 'c'), leaf("dogs", 'd')]);
    assert!(holder.load_paths(&"cats".to_string(), vec!["a.png".to_string()]));
    assert!(holder.load_paths(&"dogs".to_string(), vec!["b.png".to_string(), "c.png".to_string()]));
    assert!(!holder.load_paths(&"birds".to_string(), vec!["d.png".to_string()]));
    assert_eq!(
        holder.get_paths(),
        vec!["a.png".to_string(), "b.png".to_string(), "c.png".to_string()]
    );
    assert_eq!(holder.items_len(), 2);
}
