use linelight::color::parse_color;

#[test]
fn rgb_triple_resolves() {
    assert_eq!(parse_color("255, 0, 0"), "rgb(255, 0, 0)");
}

#[test]
fn malformed_color_falls_back_to_white() {
    assert_eq!(parse_color("bad"), "#ffffff");
}

#[test]
fn color_whitespace_is_trimmed() {
    assert_eq!(parse_color("  10 ,\t20 , 30  "), "rgb(10, 20, 30)");
}

#[test]
fn color_component_out_of_range_is_white() {
    assert_eq!(parse_color("256, 0, 0"), "#ffffff");
}

#[test]
fn color_wrong_arity_is_white() {
    assert_eq!(parse_color("1, 2"), "#ffffff");
    assert_eq!(parse_color("1, 2, 3, 4"), "#ffffff");
}

#[test]
fn color_plus_sign_parses_like_from_str() {
    assert_eq!(parse_color("+5, 0, 0"), "rgb(5, 0, 0)");
}

#[test]
fn color_leading_zeros_parse() {
    assert_eq!(parse_color("007, 08, 009"), "rgb(7, 8, 9)");
}

#[test]
fn color_empty_component_is_white() {
    assert_eq!(parse_color("1, , 3"), "#ffffff");
    assert_eq!(parse_color(""), "#ffffff");
}
