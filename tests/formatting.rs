use wwwfmt::config::Config;
use wwwfmt::html::{ErrorKind, Html, RawKind};

fn minified(src: &str, config: &Config) -> String {
    let out = Html::new(src, config).minify().unwrap_or_else(|_| panic!("minify failed"));
    String::from_utf8(out).unwrap()
}

fn prettified(src: &str, config: &Config) -> String {
    let out = Html::new(src, config).prettify().unwrap_or_else(|_| panic!("prettify failed"));
    String::from_utf8(out).unwrap()
}

#[test]
fn whitespace_between_tags_becomes_one_space() {
    let config = Config::default();
    assert_eq!(minified("<p>a</p>\n   <p>b</p>", &config), "<p>a</p> <p>b</p>");
}

#[test]
fn minify_keeps_inner_spaces_and_collapses_ends() {
    let config = Config::default();
    assert_eq!(minified("<p>\n\t a  b \n</p>", &config), "<p> a  b </p>");
}

#[test]
fn minify_twice_is_minify_once() {
    let config = Config::default();
    let once = minified("<div>\n  <p>a\n b</p>\n\n  <span> c </span>\n</div>\n", &config);
    assert_eq!(minified(&once, &config), once);
}

#[test]
fn minify_drops_comments_by_default() {
    let config = Config::default();
    assert_eq!(minified("<p>a</p><!-- note --><p>b</p>", &config), "<p>a</p><p>b</p>");
}

#[test]
fn minify_keeps_comments_when_asked() {
    let mut config = Config::default();
    config.html.uglify_rm_comments = false;
    assert_eq!(minified("<p>a</p><!-- note --><p>b</p>", &config), "<p>a</p><!-- note --><p>b</p>");
}

#[test]
fn prettify_indents_nested_elements() {
    let config = Config::default();
    assert_eq!(
        prettified("<div><p>x</p></div>", &config),
        "<div>\n  <p>\n    x\n  </p>\n</div>\n"
    );
}

#[test]
fn void_tags_do_not_deepen_indentation() {
    let config = Config::default();
    assert_eq!(
        prettified("<div><br><img src=\"a.png\"><p>x</p></div>", &config),
        "<div>\n  <br>\n  <img src=\"a.png\">\n  <p>\n    x\n  </p>\n</div>\n"
    );
}

#[test]
fn inline_elements_stay_on_one_line() {
    let config = Config::default();
    assert_eq!(
        prettified("<p><b>x</b> y</p>", &config),
        "<p>\n  <b>x</b>\n  y\n</p>\n"
    );
}

#[test]
fn nested_inline_elements_balance() {
    let config = Config::default();
    assert_eq!(
        prettified("<div><a href=\"#\"><i>x</i>\n  y </a><p>z</p></div>", &config),
        "<div>\n  <a href=\"#\"><i>x</i> y </a>\n  <p>\n    z\n  </p>\n</div>\n"
    );
}

#[test]
fn multi_line_text_is_reindented() {
    let config = Config::default();
    assert_eq!(
        prettified("<div>\n  one\n      two\n\n</div>", &config),
        "<div>\n  one\n        two\n</div>\n"
    );
}

#[test]
fn tab_indentation() {
    let mut config = Config::default();
    config.html.prettify_indent_kind = wwwfmt::IndentKind::Tab;
    config.html.prettify_indent_num = 1;
    assert_eq!(prettified("<ul><li>a</li></ul>", &config), "<ul>\n\t<li>\n\t\ta\n\t</li>\n</ul>\n");
}

#[test]
fn pre_body_is_kept_byte_for_byte() {
    let config = Config::default();
    assert_eq!(
        prettified("<pre>  a\n   <b> c </pre>", &config),
        "<pre>\n  a\n   <b> c </pre>\n"
    );
    assert_eq!(minified("<pre>  a\n   b </pre>", &config), "<pre>  a\n   b </pre>");
}

#[test]
fn pre_body_with_a_stray_bracket() {
    let config = Config::default();
    assert_eq!(minified("<pre>a < b </p></pre>", &config), "<pre>a < b </p></pre>");
}

#[test]
fn external_script_is_not_formatted() {
    let config = Config::default();
    assert_eq!(
        minified("<script src=\"x.js\"></script>", &config),
        "<script src=\"x.js\"></script>"
    );
}

#[test]
fn script_without_type_is_kept() {
    let config = Config::default();
    assert_eq!(
        minified("<script>let   a =  1;</script>", &config),
        "<script>let   a =  1;</script>"
    );
}

#[test]
fn module_script_is_formatted() {
    let config = Config::default();
    let raw = "let   a =  1;  console.log( a );";
    let out = minified(&format!("<script type=\"module\">{raw}</script>"), &config);
    assert!(out.starts_with("<script type=\"module\">"));
    assert!(out.ends_with("</script>"));
    assert!(!out.contains(raw));
    assert!(out.contains("console.log"));
}

#[test]
fn style_is_formatted() {
    let config = Config::default();
    let out = minified("<style>\n  p {\n    color: red;\n  }\n</style>", &config);
    assert_eq!(out, "<style>p{color:red}</style>");
}

#[test]
fn attributes_are_rebuilt() {
    let config = Config::default();
    assert_eq!(minified("<p  class='a'   id=b>x</p>", &config), "<p class=\"a\" id=\"b\">x</p>");
}

#[test]
fn attributes_kept_when_not_rebuilt() {
    let mut config = Config::default();
    config.html.fmt_attrs = false;
    assert_eq!(minified("<p  class='a'>x</p>", &config), "<p  class='a'>x</p>");
}

#[test]
fn unterminated_script_points_at_its_tag() {
    let config = Config::default();
    let err = Html::new("<div>\n  <script>\nlet x = 1;", &config).prettify().err().unwrap();
    assert_eq!(err.position, Some((1, 2)));
    assert!(matches!(err.kind, ErrorKind::Unterminated(RawKind::Script)));
}

#[test]
fn unterminated_pre_points_at_its_tag() {
    let config = Config::default();
    let err = Html::new("<p>a</p><pre>x", &config).minify().err().unwrap();
    assert_eq!(err.position, Some((0, 8)));
    assert!(matches!(err.kind, ErrorKind::Unterminated(RawKind::Pre)));
}

#[test]
fn malformed_markup_is_a_syntax_error() {
    let config = Config::default();
    let err = Html::new("<p>a</p><p", &config).minify().err().unwrap();
    assert!(matches!(err.kind, ErrorKind::Syntax));
}

#[test]
fn duplicate_attributes_fail_normalization() {
    let config = Config::default();
    let err = Html::new("<p a=\"1\" a=\"2\">x</p>", &config).minify().err().unwrap();
    assert!(matches!(err.kind, ErrorKind::Attributes));
}

#[test]
fn broken_module_script_fails() {
    let config = Config::default();
    let err = Html::new("<script type=\"module\">function (</script>", &config).minify().err().unwrap();
    assert!(matches!(err.kind, ErrorKind::Embedded(_)));
}

#[test]
fn prettify_then_minify_keeps_boundary_spaces() {
    let config = Config::default();
    let src = "<p>a  b</p>";
    let pretty = prettified(src, &config);
    assert_eq!(minified(&pretty, &config), "<p> a  b </p> ");
    assert_eq!(minified(src, &config), "<p>a  b</p>");
}

#[test]
fn external_module_script_is_left_as_text() {
    let config = Config::default();
    assert_eq!(
        minified("<script type=\"module\" src=\"x.js\">let  a;</script>", &config),
        "<script type=\"module\" src=\"x.js\">let  a;</script>"
    );
}

#[test]
fn module_script_is_printed_when_prettifying() {
    let config = Config::default();
    let out = prettified("<script type=\"module\">let   a=1</script>", &config);
    assert!(out.starts_with("<script type=\"module\">\n  let a = 1;"));
    assert!(out.ends_with("</script>\n"));
}

#[test]
fn style_is_compact_when_prettifying() {
    let config = Config::default();
    assert_eq!(
        prettified("<div><style>\n  p {\n    color: red;\n  }\n</style></div>", &config),
        "<div>\n  <style>\n    p{color:red}\n  </style>\n</div>\n"
    );
}

#[test]
fn doctype_and_comment_on_their_own_lines() {
    let config = Config::default();
    assert_eq!(
        prettified("<!DOCTYPE html><html><!-- c --></html>", &config),
        "<!DOCTYPE html>\n<html>\n  <!-- c -->\n</html>\n"
    );
}

#[test]
fn self_closing_tags_are_kept() {
    let config = Config::default();
    assert_eq!(minified("<p>a<br/>b</p>", &config), "<p>a<br/>b</p>");
}

#[test]
fn void_self_closing_tag_inside_inline_element() {
    let config = Config::default();
    assert_eq!(prettified("<p><b>a<br/>b</b></p>", &config), "<p>\n  <b>a<br/>b</b>\n</p>\n");
}

#[test]
fn self_closing_tag_inside_inline_element_counts_as_open() {
    let config = Config::default();
    assert_eq!(prettified("<p><span>a<x/>b</span></p>", &config), "<p>\n  <span>a<x/>b</span></p>\n");
}

#[test]
fn blank_lines_in_text_are_dropped() {
    let config = Config::default();
    assert_eq!(prettified("<div>a\n   \n\tb</div>", &config), "<div>\n  a\n  \tb\n</div>\n");
}

#[test]
fn vertical_tab_text_is_one_space_when_minified() {
    let config = Config::default();
    assert_eq!(minified("<p>a</p>\u{b}<p>b</p>", &config), "<p>a</p> <p>b</p>");
}

#[test]
fn embedded_error_carries_the_formatter_message() {
    let config = Config::default();
    let err = Html::new("<script type=\"module\">function (</script>", &config).minify().err().unwrap();
    match err.kind {
        ErrorKind::Embedded(m) => assert!(!m.is_empty()),
        _ => panic!("expected an embedded formatter error"),
    }
}

#[test]
fn no_break_space_text_is_one_space_when_minified() {
    let config = Config::default();
    assert_eq!(minified("<p>a</p>\u{a0}<p>b</p>", &config), "<p>a</p> <p>b</p>");
}

#[test]
fn unicode_blank_text_is_dropped_when_prettified() {
    let config = Config::default();
    assert_eq!(prettified("<div>\u{a0}\u{3000}</div>", &config), "<div>\n</div>\n");
    assert_eq!(prettified("<div>a\n\u{a0}\nb</div>", &config), "<div>\n  a\n  b\n</div>\n");
}

#[test]
fn plain_script_body_keeps_its_non_blank_lines() {
    let config = Config::default();
    assert_eq!(
        prettified("<script>\n  a\n   \n\u{a0}\n  b\n</script>", &config),
        "<script>\n  a\n    b\n</script>\n"
    );
}

#[test]
fn leading_byte_order_mark_is_dropped() {
    let config = Config::default();
    assert_eq!(minified("\u{feff}<p>a</p>", &config), "<p>a</p>");
    assert_eq!(prettified("\u{feff}<p>a</p>", &config), "<p>\n  a\n</p>\n");
}

#[test]
fn byte_order_mark_inside_text_is_kept() {
    let config = Config::default();
    assert_eq!(minified("<p>\u{feff}x</p>", &config), "<p>\u{feff}x</p>");
    assert_eq!(prettified("<p>\u{feff}x</p>", &config), "<p>\n  \u{feff}x\n</p>\n");
}

#[test]
fn error_after_leading_byte_order_mark_is_placed_right() {
    let config = Config::default();
    let err = Html::new("\u{feff}<p>a</p><pre>x", &config).minify().err().unwrap();
    assert_eq!(err.position, Some((0, 9)));
}
