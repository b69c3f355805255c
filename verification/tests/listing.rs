use image_picker::config::make_image_list;

fn strings(names: &[&str]) -> Vec<String> {
    names.iter().map(|n| n.to_string()).collect()
}

#[test]
fn drops_already_categorized_paths_in_order() {
    let kept = make_image_list(
        strings(&["a.png", "b.png", "c.png", "d.png"]),
        &strings(&["b.png", "d.png"]),
    );
    assert_eq!(kept, strings(&["a.png", "c.png"]));
}

#[test]
fn keeps_everything_with_no_exclusions() {
    let kept = make_image_list(strings(&["x", "y"]), &strings(&[]));
    assert_eq!(kept, strings(&["x", "y"]));
}

#[test]
fn drops_everything_when_all_are_categorized() {
    let kept = make_image_list(strings(&["x", "y"]), &strings(&["y", "x", "z"]));
    assert!(kept.is_empty());
}
