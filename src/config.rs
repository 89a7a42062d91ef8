use vstd::prelude::*;

verus! {

/// Indentation character used when prettifying.
#[derive(Clone, Copy, Debug, PartialEq, Eq, Structural)]
pub enum IndentKind {
    Tab,
    Space,
}

impl IndentKind {
    pub open spec fn spec_char(self) -> char {
        match self {
            IndentKind::Space => ' ',
            IndentKind::Tab => '\t',
        }
    }

    /// The indentation character as a byte.
    pub open spec fn spec_byte(self) -> u8 {
        match self {
            IndentKind::Space => 32u8,
            IndentKind::Tab => 9u8,
        }
    }

    pub fn to_char(&self) -> (c: char)
        ensures
            c == self.spec_char(),
    {
        match self {
            IndentKind::Space => ' ',
            IndentKind::Tab => '\t',
        }
    }

    pub fn to_byte(&self) -> (b: u8)
        ensures
            b == self.spec_byte(),
    {
        match self {
            IndentKind::Space => 32u8,
            IndentKind::Tab => 9u8,
        }
    }

    /// `n` copies of the indentation character.
    pub fn repeat(&self, n: usize) -> (r: String)
        ensures
            r@ == Seq::new(n as nat, |_i: int| self.spec_char()),
    {
        let unit = match self {
            IndentKind::Space => " ",
            IndentKind::Tab => "\t",
        };
        proof {
            reveal_strlit(" ");
            reveal_strlit("\t");
        }
        assert(unit@ == seq![self.spec_char()]);
        let mut r = String::new();
        let mut i: usize = 0;
        while i < n
            invariant
                i <= n,
                unit@ == seq![self.spec_char()],
                r@ == Seq::new(i as nat, |_k: int| self.spec_char()),
            decreases n - i,
        {
            r.append(unit);
            i = i + 1;
            assert(r@ =~= Seq::new(i as nat, |_k: int| self.spec_char()));
        }
        r
    }
}

/// HTML formatting options.
pub struct Html {
    /// Indent character used when prettifying.
    pub prettify_indent_kind: IndentKind,
    /// How many times the indent character is repeated per level when prettifying.
    pub prettify_indent_num: usize,
    /// Tags whose children are kept on one line when prettifying.
    pub prettify_noindent_tags: Vec<String>,
    /// Remove comments when minifying.
    pub uglify_rm_comments: bool,
    /// Rebuild each tag's attribute list in canonical form.
    pub fmt_attrs: bool,
}

/// The inline elements whose content stays on one line by default.
pub open spec fn default_noindent_seq() -> Seq<Seq<char>> {
    seq![
        "a"@, "span"@, "b"@, "i"@, "em"@, "strong"@, "del"@, "sup"@, "sub"@, "ins"@, "bdi"@,
        "bdo"@, "cite"@, "code"@, "data"@, "kbd"@, "mark"@, "q"@, "rp"@, "rt"@, "ruby"@, "s"@,
        "samp"@, "small"@, "time"@, "u"@, "var"@,
    ]
}

pub open spec fn names_view(v: Vec<String>) -> Seq<Seq<char>> {
    v@.map_values(|s: String| s@)
}

/// The inline elements whose content stays on one line by default.
pub fn default_noindent_tags() -> (r: Vec<String>)
    ensures
        names_view(r) == default_noindent_seq(),
{
    let r = vec![
        String::from_str("a"), String::from_str("span"), String::from_str("b"),
        String::from_str("i"), String::from_str("em"), String::from_str("strong"),
        String::from_str("del"), String::from_str("sup"), String::from_str("sub"),
        String::from_str("ins"), String::from_str("bdi"), String::from_str("bdo"),
        String::from_str("cite"), String::from_str("code"), String::from_str("data"),
        String::from_str("kbd"), String::from_str("mark"), String::from_str("q"),
        String::from_str("rp"), String::from_str("rt"), String::from_str("ruby"),
        String::from_str("s"), String::from_str("samp"), String::from_str("small"),
        String::from_str("time"), String::from_str("u"), String::from_str("var"),
    ];
    assert(names_view(r) =~= default_noindent_seq());
    r
}

impl Default for Html {
    fn default() -> (r: Self)
        ensures
            r.prettify_indent_kind == IndentKind::Space,
            r.prettify_indent_num == 2,
            names_view(r.prettify_noindent_tags) == default_noindent_seq(),
            r.uglify_rm_comments,
            r.fmt_attrs,
    {
        Html {
            prettify_indent_kind: IndentKind::Space,
            prettify_indent_num: 2,
            prettify_noindent_tags: default_noindent_tags(),
            uglify_rm_comments: true,
            fmt_attrs: true,
        }
    }
}

/// CSS formatting options.
pub struct Css {
    /// Optimize the style sheet's structure before printing it.
    pub uglify_optimize: bool,
}

impl Default for Css {
    fn default() -> (r: Self)
        ensures
            r.uglify_optimize,
    {
        Css { uglify_optimize: true }
    }
}

/// JavaScript formatting options.
pub struct JavaScript {
    /// Use only single quotes, when minifying and when prettifying.
    pub use_single_quotes: bool,
    /// Remove comments when minifying.
    pub uglify_remove_comments: bool,
    /// Mangle identifiers when minifying.
    pub uglify_mangle: bool,
    /// Drop `debugger` statements when minifying.
    pub uglify_drop_debugger: bool,
    /// Drop `console` calls when minifying.
    pub uglify_drop_console: bool,
}

impl Default for JavaScript {
    fn default() -> (r: Self)
        ensures
            r.use_single_quotes,
            r.uglify_remove_comments,
            r.uglify_mangle,
            !r.uglify_drop_debugger,
            !r.uglify_drop_console,
    {
        JavaScript {
            use_single_quotes: true,
            uglify_remove_comments: true,
            uglify_mangle: true,
            uglify_drop_debugger: false,
            uglify_drop_console: false,
        }
    }
}

/// The whole configuration.
pub struct Config {
    pub html: Html,
    pub css: Css,
    pub javascript: JavaScript,
    /// Output directory of minified files.
    pub uglify_outdir: Option<String>,
    /// Output directory of prettified files.
    pub prettify_outdir: Option<String>,
    /// Paths that are skipped.
    pub ignore_path: Vec<String>,
}

impl Default for Config {
    fn default() -> (r: Self)
        ensures
            r.html.prettify_indent_kind == IndentKind::Space,
            r.html.prettify_indent_num == 2,
            r.html.uglify_rm_comments,
            r.html.fmt_attrs,
            names_view(r.html.prettify_noindent_tags) == default_noindent_seq(),
            r.css.uglify_optimize,
            r.javascript.use_single_quotes,
            r.javascript.uglify_remove_comments,
            r.javascript.uglify_mangle,
            !r.javascript.uglify_drop_debugger,
            !r.javascript.uglify_drop_console,
            r.uglify_outdir matches Some(d) && d@ == "wwwugly"@,
            r.prettify_outdir is None,
            names_view(r.ignore_path) == seq!["wwwugly"@],
    {
        let r = Config {
            html: Html::default(),
            css: Css::default(),
            javascript: JavaScript::default(),
            uglify_outdir: Some(String::from_str("wwwugly")),
            prettify_outdir: None,
            ignore_path: vec![String::from_str("wwwugly")],
        };
        assert(names_view(r.ignore_path) =~= seq!["wwwugly"@]);
        r
    }
}

} // verus!
