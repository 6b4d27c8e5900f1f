use hammadpy::text::format_list;
use hammadpy::text::format_text;

#[test]
fn text_is_left_alone_when_coloring_is_off() {
    colored::control::set_override(false);
    assert_eq!(format_text("m", Some("red"), Some("white"), true, true, true), "m");
    let items = vec!["p".to_string(), "q".to_string()];
    assert_eq!(format_list(items.clone(), Some("rgb(1,2,3)"), None, true, false, false), items);
}
