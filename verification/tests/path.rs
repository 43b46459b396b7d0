use leptos_ssr_lazy::path::split_path;

fn strings(items: &[&str]) -> Vec<String> {
    items.iter().map(|s| s.to_string()).collect()
}

#[test]
fn empty_path_has_no_segments() {
    assert_eq!(split_path(""), Vec::<String>::new());
}

#[test]
fn root_path_has_no_segments() {
    assert_eq!(split_path("/"), Vec::<String>::new());
}

#[test]
fn single_segment() {
    assert_eq!(split_path("/console"), strings(&["console"]));
}

#[test]
fn two_segments() {
    assert_eq!(split_path("/console/home-a"), strings(&["console", "home-a"]));
}

#[test]
fn leading_slash_is_optional() {
    assert_eq!(split_path("console/home-a"), strings(&["console", "home-a"]));
}

#[test]
fn trailing_slash_adds_nothing() {
    assert_eq!(split_path("/console/"), strings(&["console"]));
}

#[test]
fn repeated_slashes_add_nothing() {
    assert_eq!(split_path("//a///b//"), strings(&["a", "b"]));
}

#[test]
fn only_slashes_is_the_root() {
    assert_eq!(split_path("////"), Vec::<String>::new());
}

#[test]
fn segments_keep_their_characters_in_order() {
    assert_eq!(split_path("/ab/cde/f"), strings(&["ab", "cde", "f"]));
}

#[test]
fn segments_may_hold_any_other_character() {
    assert_eq!(split_path("/caf\u{e9}/:id/a b"), strings(&["caf\u{e9}", ":id", "a b"]));
}
