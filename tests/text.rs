use hammadpy::text::format_list;
use hammadpy::text::format_text;
use hammadpy::text::parse_color;
use hammadpy::text::parse_rgb;
use hammadpy::text::Color;
use hammadpy::text::TextStyle;
use colored::Colorize;

fn tc(r: u8, g: u8, b: u8) -> Color {
    Color::TrueColor { r, g, b }
}

#[test]
fn rgb_out_of_range_channels_default_to_255() {
    assert_eq!(parse_color("rgb(999,-5,10)"), tc(255, 255, 10));
}

#[test]
fn rgb_channels_are_trimmed_and_may_carry_plus() {
    assert_eq!(parse_rgb("rgb( 1 , 2 ,3 )"), tc(1, 2, 3));
    assert_eq!(parse_rgb("rgb(+7,0,255)"), tc(7, 0, 255));
    assert_eq!(parse_rgb("rgb(256,,x)"), tc(255, 255, 255));
    assert_eq!(parse_rgb("rgb(\t8\n,\u{3000}9,010)"), tc(8, 9, 10));
    assert_eq!(parse_rgb("rgb(+,- 1,1 2)"), tc(255, 255, 255));
}

#[test]
fn rgb_with_wrong_shape_is_white() {
    assert_eq!(parse_rgb("rgb(1,2)"), Color::White);
    assert_eq!(parse_rgb("rgb(1,2,3,4)"), Color::White);
    assert_eq!(parse_rgb("rgb(1,2,3"), Color::White);
    assert_eq!(parse_rgb("RGB(1,2,3)"), Color::White);
    assert_eq!(parse_rgb("rgb()"), Color::White);
    assert_eq!(parse_rgb(""), Color::White);
}

#[test]
fn named_colors_are_read() {
    assert_eq!(parse_color("black"), Color::Black);
    assert_eq!(parse_color("red"), Color::Red);
    assert_eq!(parse_color("cyan"), Color::Cyan);
    assert_eq!(parse_color("bright_cyan"), Color::BrightCyan);
    assert_eq!(parse_color("bright_white"), Color::BrightWhite);
    assert_eq!(parse_color("bright black"), Color::White);
    assert_eq!(parse_color("Red"), Color::White);
    assert_eq!(parse_color("orange"), Color::White);
}

#[test]
fn purple_and_magenta_style_alike() {
    colored::control::set_override(true);
    assert_eq!(parse_color("purple"), Color::Magenta);
    assert_eq!(parse_color("magenta"), Color::Magenta);
    let a = format_text("x", Some("purple"), None, false, false, false);
    let b = format_text("x", Some("magenta"), None, false, false, false);
    assert_eq!(a, b);
    assert_eq!(a, "\u{1b}[35mx\u{1b}[0m");
}

#[test]
fn plain_style_leaves_text_unchanged() {
    assert_eq!(format_text("hello", None, None, false, false, false), "hello");
    let items = vec!["a".to_string(), "bc".to_string()];
    assert_eq!(format_list(items.clone(), None, None, false, false, false), items);
}

#[test]
fn bold_wraps_text_when_coloring_is_on() {
    colored::control::set_override(true);
    assert_eq!(format_text("hi", None, None, true, false, false), "\u{1b}[1mhi\u{1b}[0m");
}

#[test]
fn italic_and_underline_wrap_text_when_coloring_is_on() {
    colored::control::set_override(true);
    assert_eq!(format_text("a", None, None, false, true, false), "\u{1b}[3ma\u{1b}[0m");
    assert_eq!(format_text("a", None, None, false, false, true), "\u{1b}[4ma\u{1b}[0m");
}

#[test]
fn background_and_bright_colors_when_coloring_is_on() {
    colored::control::set_override(true);
    assert_eq!(format_text("z", None, Some("blue"), false, false, false), "\u{1b}[44mz\u{1b}[0m");
    assert_eq!(format_text("z", Some("bright_red"), None, false, false, false), "\u{1b}[91mz\u{1b}[0m");
}

#[test]
fn true_colors_wrap_text_when_coloring_is_on() {
    colored::control::set_override(true);
    let fg = format_text("q", Some("rgb(1,2,3)"), None, false, false, false);
    assert!(fg.starts_with("\u{1b}[") && fg.ends_with("q\u{1b}[0m") && fg != "q");
    let bg = format_text("q", None, Some("rgb(1,2,3)"), false, false, false);
    assert!(bg.starts_with("\u{1b}[") && bg.ends_with("q\u{1b}[0m") && bg != "q");
}

#[test]
fn format_list_styles_every_item_in_order() {
    colored::control::set_override(true);
    let items = vec!["a".to_string(), "b".to_string()];
    let out = format_list(items, Some("green"), None, false, false, false);
    assert_eq!(out, vec!["\u{1b}[32ma\u{1b}[0m".to_string(), "\u{1b}[32mb\u{1b}[0m".to_string()]);
}

#[test]
fn style_from_options_parses_both_colors() {
    colored::control::set_override(true);
    let s = TextStyle::from_options(Some("purple"), Some("rgb(0,0,0)"), true, false, true);
    assert_eq!(s.color, Some(Color::Magenta));
    assert_eq!(s.background, Some(tc(0, 0, 0)));
    assert!(s.bold && !s.italic && s.underline);
    assert_eq!(s.apply("k"), format_text("k", Some("magenta"), Some("rgb(0,0,0)"), true, false, true));
}

#[test]
fn rgb_literal_styles_text_in_true_color() {
    colored::control::set_override(true);
    let expected = "x".color(colored::Color::TrueColor { r: 255, g: 255, b: 10 }).to_string();
    assert_eq!(format_text("x", Some("rgb(999,-5,10)"), None, false, false, false), expected);
    let items = vec!["x".to_string()];
    assert_eq!(format_list(items, Some("rgb(999,-5,10)"), None, false, false, false), vec![expected]);
}

#[test]
fn steps_apply_in_fixed_order() {
    colored::control::set_override(true);
    let mut expected = "x".bold().to_string();
    expected = expected.as_str().italic().to_string();
    expected = expected.as_str().underline().to_string();
    expected = expected.as_str().color(colored::Color::Red).to_string();
    expected = expected.as_str().on_color(colored::Color::Blue).to_string();
    assert_eq!(format_text("x", Some("red"), Some("blue"), true, true, true), expected);
}

#[test]
fn format_list_matches_format_text_per_item() {
    colored::control::set_override(true);
    let items = vec!["one".to_string(), "two".to_string(), "".to_string()];
    let out = format_list(items.clone(), Some("bright_magenta"), Some("rgb(1,2,3)"), true, false, true);
    assert_eq!(out.len(), 3);
    for (o, i) in out.iter().zip(items.iter()) {
        assert_eq!(o, &format_text(i, Some("bright_magenta"), Some("rgb(1,2,3)"), true, false, true));
    }
}

#[test]
fn inner_resets_are_restyled() {
    colored::control::set_override(true);
    let inner = format_text("a", Some("red"), None, false, false, false);
    let outer = format_text(&inner, None, None, true, false, false);
    assert_eq!(outer, "\u{1b}[1m\u{1b}[31ma\u{1b}[0m\u{1b}[1m\u{1b}[0m");
}
