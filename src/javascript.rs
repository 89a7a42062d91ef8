use vstd::prelude::*;

use crate::config::Config;
use oxc::allocator::Allocator;
use oxc::codegen::{Codegen, CodegenOptions};
use oxc::minifier::{CompressOptions, MangleOptions, Minifier, MinifierOptions};
use oxc::parser::Parser;
use oxc::span::SourceType;

verus! {

/// How a script is parsed: its language, whether it is an ES module, and whether JSX
/// is allowed. All flags unset is a CommonJS script.
#[derive(Clone, Copy, Debug, PartialEq, Eq, Structural)]
pub struct ScriptKind {
    /// TypeScript rather than JavaScript.
    pub typescript: bool,
    /// A TypeScript declaration file.
    pub definition: bool,
    /// An ES module rather than a script.
    pub module: bool,
    /// JSX allowed.
    pub jsx: bool,
}

impl ScriptKind {
    pub open spec fn commonjs_spec() -> ScriptKind {
        ScriptKind { typescript: false, definition: false, module: false, jsx: false }
    }

    /// A plain CommonJS script, as scripts embedded in markup are read.
    pub fn commonjs() -> (r: ScriptKind)
        ensures
            r == Self::commonjs_spec(),
    {
        ScriptKind { typescript: false, definition: false, module: false, jsx: false }
    }
}

/// The diagnostics of oxc's parser on `src` where it gives up; `None` where it does not.
pub uninterp spec fn js_diagnostics_of(
    src: Seq<u8>,
    typescript: bool,
    definition: bool,
    module: bool,
    jsx: bool,
) -> Option<Seq<Seq<char>>>;

/// Relies on oxc's `Parser::parse`, with the `SourceType` that `k` describes: where
/// the parser gives up (`panicked`), its diagnostics, each as its `Display` text.
#[verifier::external_body]
fn js_diagnostics(src: &[u8], k: ScriptKind) -> (r: Option<Vec<String>>)
    ensures
        match r {
            None => js_diagnostics_of(src@, k.typescript, k.definition, k.module, k.jsx) is None,
            Some(ds) => js_diagnostics_of(src@, k.typescript, k.definition, k.module, k.jsx) == Some(strings_view(ds)),
        },
{
    let alloc = Allocator::default();
    let src = String::from_utf8_lossy(src);
    let st = SourceType::cjs().with_module(k.module).with_typescript(k.typescript);
    let ret = Parser::new(&alloc, &src, st.with_typescript_definition(k.definition).with_jsx(k.jsx)).parse();
    ret.panicked.then_some(ret.errors.iter().map(ToString::to_string).collect())
}

/// The script that oxc prints back from `src`.
pub uninterp spec fn js_printed(
    src: Seq<u8>,
    typescript: bool,
    definition: bool,
    module: bool,
    jsx: bool,
    single_quote: bool,
) -> Seq<u8>;

/// Relies on oxc's `Parser` and `Codegen` (comments kept), with the `SourceType` that
/// `k` describes: the script printed back in oxc's layout.
#[verifier::external_body]
fn print_js(src: &[u8], k: ScriptKind, single_quote: bool) -> (r: Vec<u8>)
    ensures
        r@ == js_printed(src@, k.typescript, k.definition, k.module, k.jsx, single_quote),
{
    let alloc = Allocator::default();
    let src = String::from_utf8_lossy(src);
    let st = SourceType::cjs().with_module(k.module).with_typescript(k.typescript);
    let ret = Parser::new(&alloc, &src, st.with_typescript_definition(k.definition).with_jsx(k.jsx)).parse();
    let opts = CodegenOptions { single_quote, comments: true, ..CodegenOptions::default() };
    Codegen::new().with_options(opts).build(&ret.program).code.into_bytes()
}

/// The script that oxc's minifier and printer make of `src`.
pub uninterp spec fn js_minified(
    src: Seq<u8>,
    typescript: bool,
    definition: bool,
    module: bool,
    jsx: bool,
    mangle: bool,
    drop_debugger: bool,
    drop_console: bool,
    single_quote: bool,
    comments: bool,
) -> Seq<u8>;

/// Relies on oxc's `Parser`, `Minifier` and `Codegen` in minifying mode, with the
/// `SourceType` that `k` describes: the script compressed, optionally mangled, and
/// printed.
#[verifier::external_body]
fn minify_js(
    src: &[u8],
    k: ScriptKind,
    mangle: bool,
    drop_debugger: bool,
    drop_console: bool,
    single_quote: bool,
    comments: bool,
) -> (r: Vec<u8>)
    ensures
        r@ == js_minified(src@, k.typescript, k.definition, k.module, k.jsx, mangle, drop_debugger, drop_console, single_quote, comments),
{
    let alloc = Allocator::default();
    let src = String::from_utf8_lossy(src);
    let st = SourceType::cjs().with_module(k.module).with_typescript(k.typescript);
    let mut ret = Parser::new(&alloc, &src, st.with_typescript_definition(k.definition).with_jsx(k.jsx)).parse();
    let compress = Some(CompressOptions { drop_debugger, drop_console, ..Default::default() });
    let mangle = mangle.then_some(MangleOptions::default());
    let scoping = Minifier::new(MinifierOptions { mangle, compress }).build(&alloc, &mut ret.program).scoping;
    let opts = CodegenOptions { minify: true, single_quote, comments, ..Default::default() };
    Codegen::new().with_options(opts).with_scoping(scoping).build(&ret.program).code.into_bytes()
}

/// What the JavaScript formatter makes of `src`, parsed as `k`, under `config`, when
/// minifying or prettifying; the parser's diagnostics where it gives up.
pub open spec fn js_formatted(src: Seq<u8>, k: ScriptKind, config: &Config, minify: bool) -> Result<Seq<u8>, Seq<char>> {
    match js_result(src, k, config, minify) {
        Ok(v) => Ok(v),
        Err(ds) => Err(joined(ds)),
    }
}

pub open spec fn strings_view(v: Vec<String>) -> Seq<Seq<char>> {
    v@.map_values(|s: String| s@)
}

/// Diagnostics joined into one message, a tab and a newline between each two.
pub open spec fn joined(ds: Seq<Seq<char>>) -> Seq<char>
    decreases ds.len(),
{
    if ds.len() == 0 {
        Seq::empty()
    } else if ds.len() == 1 {
        ds[0]
    } else {
        joined(ds.drop_last()) + seq!['\t', '\n'] + ds.last()
    }
}

/// Joins diagnostics into one message: see `joined`.
pub fn join_diagnostics(ds: Vec<String>) -> (r: String)
    ensures
        r@ == joined(strings_view(ds)),
{
    let mut r = String::new();
    let mut i: usize = 0;
    while i < ds.len()
        invariant
            i <= ds@.len(),
            r@ == joined(strings_view(ds).subrange(0, i as int)),
        decreases ds@.len() - i,
    {
        let ghost v = strings_view(ds);
        assert(v.subrange(0, i + 1).drop_last() =~= v.subrange(0, i as int));
        let ghost before = r@;
        if i > 0 {
            proof {
                reveal_strlit("\t\n");
            }
            r.append("\t\n");
        }
        r.append(ds[i].as_str());
        assert(v[i as int] == ds@[i as int]@);
        assert(v.subrange(0, i + 1).last() == v[i as int]);
        if i > 0 {
            assert(r@ =~= before + seq!['\t', '\n'] + v[i as int]);
        } else {
            assert(r@ =~= v[0]);
        }
        i = i + 1;
        assert(r@ =~= joined(v.subrange(0, i as int)));
    }
    assert(strings_view(ds).subrange(0, ds@.len() as int) =~= strings_view(ds));
    r
}

/// What the formatter's outside calls give: the parser's diagnostics where it gives
/// up, the formatted script otherwise.
pub open spec fn js_result(src: Seq<u8>, k: ScriptKind, config: &Config, minify: bool) -> Result<Seq<u8>, Seq<Seq<char>>> {
    let js = config.javascript;
    match js_diagnostics_of(src, k.typescript, k.definition, k.module, k.jsx) {
        Some(ds) => Err(ds),
        None => Ok(
            if minify {
                js_minified(
                    src,
                    k.typescript,
                    k.definition,
                    k.module,
                    k.jsx,
                    js.uglify_mangle,
                    js.uglify_drop_debugger,
                    js.uglify_drop_console,
                    js.use_single_quotes,
                    !js.uglify_remove_comments,
                )
            } else {
                js_printed(src, k.typescript, k.definition, k.module, k.jsx, js.use_single_quotes)
            },
        ),
    }
}

/// Formats a script: minified with the configured compression, mangling and comment
/// removal, or printed back in full with its comments.
pub fn fmt_str(src: &[u8], kind: ScriptKind, config: &Config, minify: bool) -> (r: Result<Vec<u8>, String>)
    ensures
        match r {
            Ok(v) => js_formatted(src@, kind, config, minify) == Ok::<Seq<u8>, Seq<char>>(v@),
            Err(m) => js_formatted(src@, kind, config, minify) == Err::<Seq<u8>, Seq<char>>(m@),
        },
{
    if let Some(ds) = js_diagnostics(src, kind) {
        return Err(join_diagnostics(ds));
    }
    let js = &config.javascript;
    if minify {
        Ok(minify_js(
            src,
            kind,
            js.uglify_mangle,
            js.uglify_drop_debugger,
            js.uglify_drop_console,
            js.use_single_quotes,
            !js.uglify_remove_comments,
        ))
    } else {
        Ok(print_js(src, kind, js.use_single_quotes))
    }
}

} // verus!
