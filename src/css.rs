use vstd::prelude::*;

use crate::config::Config;
use lightningcss::printer::PrinterOptions;
use lightningcss::stylesheet::{MinifyOptions, ParserOptions, StyleSheet};

verus! {

/// The style sheet that lightningcss prints from `src`; the message of the step that
/// failed, where one does.
pub uninterp spec fn css_printed(src: Seq<u8>, minify: bool) -> Result<Seq<u8>, Seq<char>>;

/// Relies on lightningcss's `StyleSheet::parse` and `StyleSheet::to_css`: the style
/// sheet printed, compact where `minify` holds; the message of the step that failed,
/// prefixed with what failed.
#[verifier::external_body]
fn print_css(src: &[u8], minify: bool) -> (r: Result<Vec<u8>, String>)
    ensures
        match r {
            Ok(v) => css_printed(src@, minify) == Ok::<Seq<u8>, Seq<char>>(v@),
            Err(m) => css_printed(src@, minify) == Err::<Seq<u8>, Seq<char>>(m@),
        },
{
    let src = String::from_utf8_lossy(src);
    let sheet = StyleSheet::parse(&src, ParserOptions::default())
        .map_err(|e| format!("Failed to parse CSS: {e}"))?;
    let printed = sheet.to_css(PrinterOptions { minify, ..PrinterOptions::default() });
    printed.map(|p| p.code.into_bytes()).map_err(|e| format!("Failed to minify CSS: {e}"))
}

/// The style sheet that lightningcss prints from `src` after its structural
/// optimization; the message of the step that failed, where one does.
pub uninterp spec fn css_optimized(src: Seq<u8>, minify: bool) -> Result<Seq<u8>, Seq<char>>;

/// Relies on lightningcss's `StyleSheet::parse`, `StyleSheet::minify` and
/// `StyleSheet::to_css`: the style sheet optimized and printed, compact where `minify`
/// holds; the message of the step that failed, prefixed with what failed.
#[verifier::external_body]
fn optimize_css(src: &[u8], minify: bool) -> (r: Result<Vec<u8>, String>)
    ensures
        match r {
            Ok(v) => css_optimized(src@, minify) == Ok::<Seq<u8>, Seq<char>>(v@),
            Err(m) => css_optimized(src@, minify) == Err::<Seq<u8>, Seq<char>>(m@),
        },
{
    let src = String::from_utf8_lossy(src);
    let mut sheet = StyleSheet::parse(&src, ParserOptions::default())
        .map_err(|e| format!("Failed to parse CSS: {e}"))?;
    sheet.minify(MinifyOptions::default()).map_err(|e| format!("Failed to optimize CSS: {e}"))?;
    let printed = sheet.to_css(PrinterOptions { minify, ..PrinterOptions::default() });
    printed.map(|p| p.code.into_bytes()).map_err(|e| format!("Failed to minify CSS: {e}"))
}

/// What the CSS formatter makes of `src` under `config`: the structural optimization
/// applies only when minifying and enabled.
pub open spec fn css_formatted(src: Seq<u8>, config: &Config, minify: bool) -> Result<Seq<u8>, Seq<char>> {
    if minify && config.css.uglify_optimize {
        css_optimized(src, minify)
    } else {
        css_printed(src, minify)
    }
}

/// Formats a style sheet, compact when minifying.
pub fn fmt_str(src: &[u8], config: &Config, minify: bool) -> (r: Result<Vec<u8>, String>)
    ensures
        match r {
            Ok(v) => css_formatted(src@, config, minify) == Ok::<Seq<u8>, Seq<char>>(v@),
            Err(m) => css_formatted(src@, config, minify) == Err::<Seq<u8>, Seq<char>>(m@),
        },
{
    if minify && config.css.uglify_optimize {
        optimize_css(src, minify)
    } else {
        print_css(src, minify)
    }
}

} // verus!
