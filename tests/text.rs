use wwwfmt::files::get_extension;
use wwwfmt::javascript::{self, ScriptKind};
use wwwfmt::text::{collapse_text, position, trim_pos, trim_pos_end};
use wwwfmt::{Config, IndentKind};

#[test]
fn position_counts_lines_and_characters() {
    assert_eq!(position(b"ab\ncd", 4), Some((1, 1)));
    assert_eq!(position(b"ab\ncd", 0), Some((0, 0)));
    assert_eq!(position(b"ab\ncd", 5), Some((1, 2)));
    assert_eq!(position(b"ab\ncd", 6), None);
}

#[test]
fn position_counts_characters_not_bytes() {
    let s = "é\nàb";
    assert_eq!(position(s.as_bytes(), 6), Some((1, 2)));
    assert_eq!(position(s.as_bytes(), 1), None);
}

#[test]
fn trim_pos_counts_leading_whitespace() {
    assert_eq!(trim_pos(b" \t\nab "), Some(3));
    assert_eq!(trim_pos(b"ab"), None);
    assert_eq!(trim_pos(b"\rab"), None);
    assert_eq!(trim_pos_end(b"ab \n"), Some(2));
    assert_eq!(trim_pos_end(b""), None);
}

#[test]
fn collapse_edges() {
    assert_eq!(collapse_text(b""), b"".to_vec());
    assert_eq!(collapse_text(b" \n\t "), b" ".to_vec());
    assert_eq!(collapse_text(b"\r\n"), b" ".to_vec());
    assert_eq!(collapse_text(b"\n a b\t"), b" a b ".to_vec());
    assert_eq!(collapse_text(b"a"), b"a".to_vec());
}

#[test]
fn extension_in_lower_case() {
    assert_eq!(get_extension("site/Index.HTML"), Some("html".to_string()));
    assert_eq!(get_extension("a.tar.gz"), Some("gz".to_string()));
    assert_eq!(get_extension(".wwwfmt"), None);
    assert_eq!(get_extension("Makefile"), None);
}

#[test]
fn indent_kinds() {
    assert_eq!(IndentKind::Space.to_char(), ' ');
    assert_eq!(IndentKind::Tab.to_char(), '\t');
    assert_eq!(IndentKind::Space.repeat(3), "   ");
    assert_eq!(IndentKind::Tab.repeat(0), "");
}

#[test]
fn default_configuration() {
    let c = Config::default();
    assert_eq!(c.html.prettify_indent_num, 2);
    assert!(c.html.prettify_noindent_tags.iter().any(|t| t == "span"));
    assert!(c.html.uglify_rm_comments);
    assert!(c.css.uglify_optimize);
    assert!(c.javascript.uglify_mangle);
    assert_eq!(c.uglify_outdir.as_deref(), Some("wwwugly"));
    assert_eq!(c.ignore_path, vec!["wwwugly".to_string()]);
}

#[test]
fn typescript_is_parsed_as_typescript() {
    let config = Config::default();
    let ts = ScriptKind { typescript: true, definition: false, module: true, jsx: false };
    let out = javascript::fmt_str(b"let a: number = 1;", ts, &config, false).unwrap();
    assert!(String::from_utf8(out).unwrap().contains("let a: number = 1;"));
    assert!(javascript::fmt_str(b"let a: number = 1;", ScriptKind::commonjs(), &config, false).is_err());
}

#[test]
fn collapse_vertical_tab() {
    assert_eq!(collapse_text(b"\x0b"), b" ".to_vec());
}

#[test]
fn collapse_unicode_whitespace() {
    assert_eq!(collapse_text("\u{a0}".as_bytes()), b" ".to_vec());
    assert_eq!(collapse_text("\u{2003}\u{205f}".as_bytes()), b" ".to_vec());
    assert_eq!(collapse_text("\u{a0}a".as_bytes()), "\u{a0}a".as_bytes().to_vec());
}
