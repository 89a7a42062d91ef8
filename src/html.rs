use vstd::prelude::*;

use crate::config::Config;
use crate::css::{self, css_formatted};
use crate::javascript::{self, js_formatted};
use vstd::utf8::encode_utf8;

pub use crate::text::{position, trim_pos};
use crate::markup::{
    attribute_of, canonical_content, canonical_tag, get_attr, event_at, markup_of, read_event_at,
    write_tok, written, Markup, Tok,
};
use crate::javascript::ScriptKind;
use vstd::pervasive::arbitrary;
use crate::text::{
    bytes_eq, collapse, collapse_text, indented_block, lower_seq, name_end, name_len,
    push_all, push_indented_block, push_repeat, spec_position, to_lower,
};

verus! {

/// The elements whose body is taken literally, up to their closing tag.
#[derive(Clone, Copy, Debug, PartialEq, Eq, Structural)]
pub enum RawKind {
    Script,
    Style,
    Pre,
}

pub open spec fn script_name() -> Seq<u8> {
    seq![115u8, 99u8, 114u8, 105u8, 112u8, 116u8]
}

pub open spec fn style_name() -> Seq<u8> {
    seq![115u8, 116u8, 121u8, 108u8, 101u8]
}

pub open spec fn pre_name() -> Seq<u8> {
    seq![112u8, 114u8, 101u8]
}

impl RawKind {
    pub open spec fn spec_name(self) -> Seq<u8> {
        match self {
            RawKind::Script => script_name(),
            RawKind::Style => style_name(),
            RawKind::Pre => pre_name(),
        }
    }

    /// What follows `<` in the closing tag: `/script>`, `/style>` or `/pre>`.
    pub open spec fn spec_terminator(self) -> Seq<u8> {
        seq![47u8] + self.spec_name() + seq![62u8]
    }

    pub fn name(&self) -> (r: Vec<u8>)
        ensures
            r@ == self.spec_name(),
    {
        let r = match self {
            RawKind::Script => vec![115u8, 99u8, 114u8, 105u8, 112u8, 116u8],
            RawKind::Style => vec![115u8, 116u8, 121u8, 108u8, 101u8],
            RawKind::Pre => vec![112u8, 114u8, 101u8],
        };
        assert(r@ =~= self.spec_name());
        r
    }

    pub fn terminator(&self) -> (r: Vec<u8>)
        ensures
            r@ == self.spec_terminator(),
    {
        let mut r: Vec<u8> = vec![47u8];
        let n = self.name();
        push_all(&mut r, n.as_slice());
        r.push(62u8);
        assert(r@ =~= self.spec_terminator());
        r
    }
}

/// The element names that never have children.
pub open spec fn void_tags() -> Seq<Seq<u8>> {
    seq![
        seq![97u8, 114u8, 101u8, 97u8],
        seq![98u8, 97u8, 115u8, 101u8],
        seq![98u8, 114u8],
        seq![99u8, 111u8, 108u8],
        seq![101u8, 109u8, 98u8, 101u8, 100u8],
        seq![104u8, 114u8],
        seq![105u8, 109u8, 103u8],
        seq![105u8, 110u8, 112u8, 117u8, 116u8],
        seq![108u8, 105u8, 110u8, 107u8],
        seq![109u8, 101u8, 116u8, 97u8],
        seq![112u8, 97u8, 114u8, 97u8, 109u8],
        seq![115u8, 111u8, 117u8, 114u8, 99u8, 101u8],
        seq![116u8, 114u8, 97u8, 99u8, 107u8],
        seq![119u8, 98u8, 114u8],
    ]
}

/// Whether a tag name, in any case, names a void element.
pub open spec fn is_void(name: Seq<u8>) -> bool {
    void_tags().contains(lower_seq(name))
}

fn void_tag_list() -> (r: Vec<Vec<u8>>)
    ensures
        r@.map_values(|v: Vec<u8>| v@) == void_tags(),
{
    let r = vec![
        vec![97u8, 114u8, 101u8, 97u8],
        vec![98u8, 97u8, 115u8, 101u8],
        vec![98u8, 114u8],
        vec![99u8, 111u8, 108u8],
        vec![101u8, 109u8, 98u8, 101u8, 100u8],
        vec![104u8, 114u8],
        vec![105u8, 109u8, 103u8],
        vec![105u8, 110u8, 112u8, 117u8, 116u8],
        vec![108u8, 105u8, 110u8, 107u8],
        vec![109u8, 101u8, 116u8, 97u8],
        vec![112u8, 97u8, 114u8, 97u8, 109u8],
        vec![115u8, 111u8, 117u8, 114u8, 99u8, 101u8],
        vec![116u8, 114u8, 97u8, 99u8, 107u8],
        vec![119u8, 98u8, 114u8],
    ];
    assert(r@.map_values(|v: Vec<u8>| v@) =~= void_tags());
    r
}

/// Whether `name` names a void element.
pub fn is_void_name(name: &[u8]) -> (r: bool)
    ensures
        r == is_void(name@),
{
    let l = to_lower(name);
    let tags = void_tag_list();
    let ghost tv = tags@.map_values(|v: Vec<u8>| v@);
    let mut i: usize = 0;
    while i < tags.len()
        invariant
            i <= tags@.len(),
            tv == tags@.map_values(|v: Vec<u8>| v@),
            tv == void_tags(),
            l@ == lower_seq(name@),
            forall|k: int| 0 <= k < i ==> tv[k] != l@,
        decreases tags@.len() - i,
    {
        if bytes_eq(tags[i].as_slice(), l.as_slice()) {
            assert(tv[i as int] == l@);
            assert(void_tags()[i as int] == lower_seq(name@));
            assert(void_tags().contains(lower_seq(name@)));
            return true;
        }
        i = i + 1;
    }
    assert(!void_tags().contains(l@));
    false
}

/// The name of a tag, from its content.
pub open spec fn tag_name(content: Seq<u8>) -> Seq<u8> {
    content.subrange(0, name_end(content, 0))
}

/// The literal body that a start tag opens, by its exact name.
pub open spec fn raw_kind_of(name: Seq<u8>) -> Option<RawKind> {
    if name == script_name() {
        Some(RawKind::Script)
    } else if name == style_name() {
        Some(RawKind::Style)
    } else if name == pre_name() {
        Some(RawKind::Pre)
    } else {
        None
    }
}

fn raw_kind(name: &[u8]) -> (r: Option<RawKind>)
    ensures
        r == raw_kind_of(name@),
{
    if bytes_eq(name, RawKind::Script.name().as_slice()) {
        Some(RawKind::Script)
    } else if bytes_eq(name, RawKind::Style.name().as_slice()) {
        Some(RawKind::Style)
    } else if bytes_eq(name, RawKind::Pre.name().as_slice()) {
        Some(RawKind::Pre)
    } else {
        None
    }
}

pub open spec fn src_key() -> Seq<u8> {
    seq![115u8, 114u8, 99u8]
}

pub open spec fn type_key() -> Seq<u8> {
    seq![116u8, 121u8, 112u8, 101u8]
}

/// `text/javascript`
pub open spec fn js_type() -> Seq<u8> {
    seq![116u8, 101u8, 120u8, 116u8, 47u8, 106u8, 97u8, 118u8, 97u8, 115u8, 99u8, 114u8, 105u8, 112u8, 116u8]
}

/// `module`
pub open spec fn module_type() -> Seq<u8> {
    seq![109u8, 111u8, 100u8, 117u8, 108u8, 101u8]
}

/// Whether the body of a script start tag is captured: it has no `src` attribute.
pub open spec fn script_captured(content: Seq<u8>) -> bool {
    attribute_of(content, name_end(content, 0) as nat, src_key()) is None
}

/// Whether a captured script body goes to the JavaScript formatter: its `type` is
/// `text/javascript` or `module`.
pub open spec fn script_formatted(content: Seq<u8>) -> bool {
    script_captured(content) && match attribute_of(content, name_end(content, 0) as nat, type_key()) {
        Some(t) => t == js_type() || t == module_type(),
        None => false,
    }
}

/// Decides how a script start tag's body is handled: whether it is captured, and
/// whether it goes to the JavaScript formatter.
pub fn script_gate(content: &[u8]) -> (r: (bool, bool))
    ensures
        r.0 == script_captured(content@),
        r.1 == script_formatted(content@),
{
    let src = get_attr(content, vec![115u8, 114u8, 99u8].as_slice());
    proof {
        assert(seq![115u8, 114u8, 99u8] =~= src_key());
    }
    if src.is_some() {
        return (false, false);
    }
    let ty = get_attr(content, vec![116u8, 121u8, 112u8, 101u8].as_slice());
    assert(seq![116u8, 121u8, 112u8, 101u8] =~= type_key());
    match ty {
        None => (true, false),
        Some(t) => {
            let js = vec![116u8, 101u8, 120u8, 116u8, 47u8, 106u8, 97u8, 118u8, 97u8, 115u8, 99u8, 114u8, 105u8, 112u8, 116u8];
            let module = vec![109u8, 111u8, 100u8, 117u8, 108u8, 101u8];
            assert(js@ =~= js_type());
            assert(module@ =~= module_type());
            let f = bytes_eq(t.as_slice(), js.as_slice()) || bytes_eq(t.as_slice(), module.as_slice());
            (true, f)
        },
    }
}

/// Whether the closing sequence `<` + `t` starts at index `q` of `s`.
pub open spec fn is_close_at(s: Seq<u8>, q: int, t: Seq<u8>) -> bool {
    0 <= q && q + 1 + t.len() <= s.len() && s[q] == 60u8 && s.subrange(q + 1, q + 1 + t.len()) == t
}

/// The first index at or after `q` where `<` + `t` starts in `s`.
pub open spec fn close_from(s: Seq<u8>, q: int, t: Seq<u8>) -> Option<int>
    decreases s.len() - q,
{
    if q < 0 || q >= s.len() {
        None
    } else if is_close_at(s, q, t) {
        Some(q)
    } else {
        close_from(s, q + 1, t)
    }
}

proof fn lemma_close_from_bounds(s: Seq<u8>, q: int, t: Seq<u8>)
    requires
        0 <= q,
    ensures
        match close_from(s, q, t) {
            Some(c) => q <= c && is_close_at(s, c, t),
            None => true,
        },
    decreases s.len() - q,
{
    if q < s.len() && !is_close_at(s, q, t) {
        lemma_close_from_bounds(s, q + 1, t);
    }
}

/// Scans `src` from `from` for `<` + `t`, byte by byte, taking nothing in between as
/// markup.
pub fn find_close(src: &[u8], from: usize, t: &[u8]) -> (r: Option<usize>)
    ensures
        match r {
            Some(q) => close_from(src@, from as int, t@) == Some(q as int),
            None => close_from(src@, from as int, t@) is None,
        },
{
    let mut q: usize = from;
    while q < src.len()
        invariant
            from <= q,
            close_from(src@, from as int, t@) == close_from(src@, q as int, t@),
        decreases src@.len() - q,
    {
        if src[q] == 60u8 && t.len() < src.len() - q {
            let cand = vstd::slice::slice_subrange(src, q + 1, q + 1 + t.len());
            if bytes_eq(cand, t) {
                return Some(q);
            }
        }
        q = q + 1;
    }
    None
}


/// Why a formatting pass failed.
pub enum ErrorKind {
    /// The tokenizer found malformed markup.
    Syntax,
    /// The input ended inside the literal body of this element.
    Unterminated(RawKind),
    /// The JavaScript or CSS formatter rejected an embedded body, with its diagnostics.
    Embedded(String),
    /// A tag's attributes could not be read again to put them in canonical form.
    Attributes,
}

/// Why a formatting pass failed, with an embedded formatter's message as characters.
pub ghost enum Fault {
    Syntax,
    Unterminated(RawKind),
    Embedded(Seq<char>),
    Attributes,
}

impl View for ErrorKind {
    type V = Fault;

    open spec fn view(&self) -> Fault {
        match self {
            ErrorKind::Syntax => Fault::Syntax,
            ErrorKind::Unterminated(k) => Fault::Unterminated(*k),
            ErrorKind::Embedded(m) => Fault::Embedded(m@),
            ErrorKind::Attributes => Fault::Attributes,
        }
    }
}

/// A failure at a byte offset of the source.
pub struct Failure {
    pub offset: usize,
    pub kind: ErrorKind,
}

/// A failure with its 0-based line and column in the source; `None` where the offset
/// does not start a character.
pub struct PositionedError {
    pub position: Option<(usize, usize)>,
    pub kind: ErrorKind,
}

/// `n + 1`, held at the largest `usize`.
pub open spec fn inc(n: usize) -> usize {
    if n < usize::MAX {
        (n + 1) as usize
    } else {
        n
    }
}

/// `n - 1`, held at zero.
pub open spec fn dec(n: usize) -> usize {
    if n > 0 {
        (n - 1) as usize
    } else {
        0
    }
}

/// `num * depth`, held at the largest `usize`.
pub open spec fn width(num: usize, depth: usize) -> nat {
    if num * depth <= usize::MAX {
        (num * depth) as nat
    } else {
        usize::MAX as nat
    }
}

/// Whether a lower-case tag name is configured as one whose content stays on one line.
pub open spec fn is_noindent_tag(config: &Config, lname: Seq<u8>) -> bool {
    exists|i: int|
        0 <= i < config.html.prettify_noindent_tags@.len() && encode_utf8(
            #[trigger] config.html.prettify_noindent_tags@[i]@,
        ) == lname
}

fn noindent_tag(config: &Config, lname: &[u8]) -> (r: bool)
    ensures
        r == is_noindent_tag(config, lname@),
{
    let tags = &config.html.prettify_noindent_tags;
    let mut i: usize = 0;
    while i < tags.len()
        invariant
            i <= tags@.len(),
            tags == &config.html.prettify_noindent_tags,
            forall|k: int| 0 <= k < i ==> encode_utf8(#[trigger] tags@[k]@) != lname@,
        decreases tags@.len() - i,
    {
        let b = tags[i].as_str().as_bytes();
        if bytes_eq(b, lname) {
            return true;
        }
        i = i + 1;
    }
    false
}

/// What a writer emits for an event, with a tag's attributes first put in canonical
/// form where `fmt_attrs` holds; `None` where they cannot be read.
pub open spec fn emitted(fmt_attrs: bool, t: Markup) -> Option<Seq<u8>> {
    match t {
        Markup::Start(c) => if fmt_attrs {
            match canonical_content(c) {
                Some(cc) => Some(seq![60u8] + cc + seq![62u8]),
                None => None,
            }
        } else {
            Some(written(t))
        },
        Markup::Empty(c) => if fmt_attrs {
            match canonical_content(c) {
                Some(cc) => Some(seq![60u8] + cc + seq![47u8, 62u8]),
                None => None,
            }
        } else {
            Some(written(t))
        },
        _ => Some(written(t)),
    }
}

/// A formatting pass over one document.
pub struct Html<'a> {
    /// The document's bytes.
    pub src: Vec<u8>,
    pub config: &'a Config,
    /// What has been written so far.
    pub out: Vec<u8>,
    /// The literal body that is to be read next, if any.
    pub wbuf: Option<RawKind>,
    /// Minifying, or prettifying.
    pub minify: bool,
    /// Whether the script body to be read goes to the JavaScript formatter.
    pub fmt: bool,
    /// Indentation depth.
    pub indent: usize,
    /// Depth inside elements whose content stays on one line; zero outside them.
    pub noindent: usize,
    /// Where the tokenizer reads next.
    pub pos: usize,
    /// Where the start tag of the literal body being read begins.
    pub raw_start: usize,
}

/// The next state of a pass after an event, and what it writes.
pub ghost struct Step {
    pub out: Seq<u8>,
    pub indent: usize,
    pub noindent: usize,
    pub wbuf: Option<RawKind>,
    pub fmt: bool,
}

impl<'a> Html<'a> {
    /// Indentation for depth `depth`.
    pub open spec fn ind_at(&self, depth: usize) -> Seq<u8> {
        Seq::new(
            width(self.config.html.prettify_indent_num, depth),
            |_i: int| self.config.html.prettify_indent_kind.spec_byte(),
        )
    }

    pub open spec fn spec_ind(&self) -> Seq<u8> {
        self.ind_at(self.indent)
    }

    /// All fields but the output are those of `o`.
    pub open spec fn same_state(&self, o: &Html<'a>) -> bool {
        self.src == o.src && self.config == o.config && self.wbuf == o.wbuf && self.minify
            == o.minify && self.fmt == o.fmt && self.indent == o.indent && self.noindent
            == o.noindent && self.pos == o.pos && self.raw_start == o.raw_start
    }

    /// The fields that a pass never changes are those of `o`.
    pub open spec fn same_input(&self, o: &Html<'a>) -> bool {
        self.src == o.src && self.config == o.config && self.minify == o.minify
    }

    fn write_indent_at(&mut self, depth: usize)
        ensures
            final(self).out@ == old(self).out@ + old(self).ind_at(depth),
            final(self).same_state(old(self)),
    {
        let w = match self.config.html.prettify_indent_num.checked_mul(depth) {
            Some(w) => w,
            None => usize::MAX,
        };
        let b = self.config.html.prettify_indent_kind.to_byte();
        push_repeat(&mut self.out, b, w);
        assert(Seq::new(w as nat, |_i: int| b) =~= old(self).ind_at(depth));
    }

    fn write_byte(&mut self, b: u8)
        ensures
            final(self).out@ == old(self).out@.push(b),
            final(self).same_state(old(self)),
    {
        self.out.push(b);
    }

    fn write_bytes(&mut self, b: &[u8])
        ensures
            final(self).out@ == old(self).out@ + b@,
            final(self).same_state(old(self)),
    {
        push_all(&mut self.out, b);
    }

    /// Writes an event, with its attributes in canonical form where configured;
    /// `false` where they cannot be read.
    fn write_event(&mut self, t: &Tok) -> (r: bool)
        ensures
            match emitted(old(self).config.html.fmt_attrs, t@) {
                Some(e) => r && final(self).out@ == old(self).out@ + e,
                None => !r,
            },
            final(self).same_state(old(self)),
    {
        if self.config.html.fmt_attrs {
            match t {
                Tok::Start(c) => {
                    match canonical_tag(c.as_slice()) {
                        None => return false,
                        Some(cc) => {
                            let nt = Tok::Start(cc);
                            write_tok(&mut self.out, &nt);
                            return true;
                        },
                    }
                },
                Tok::Empty(c) => {
                    match canonical_tag(c.as_slice()) {
                        None => return false,
                        Some(cc) => {
                            let nt = Tok::Empty(cc);
                            write_tok(&mut self.out, &nt);
                            return true;
                        },
                    }
                },
                _ => {},
            }
        }
        write_tok(&mut self.out, t);
        true
    }

    /// Writes the end tag of a literal body.
    fn write_end(&mut self, k: RawKind)
        ensures
            final(self).out@ == old(self).out@ + old(self).end_written(k, old(self).indent),
            final(self).same_state(old(self)),
    {
        if !self.minify {
            self.write_indent_at(self.indent);
        }
        self.write_bytes(vec![60u8, 47u8].as_slice());
        let n = k.name();
        self.write_bytes(n.as_slice());
        self.write_byte(62u8);
        if !self.minify {
            self.write_byte(10u8);
        }
        assert(self.out@ =~= old(self).out@ + old(self).end_written(k, old(self).indent));
    }

    /// The end tag of a literal body, on a line of its own when prettifying.
    pub open spec fn end_written(&self, k: RawKind, depth: usize) -> Seq<u8> {
        let tag = seq![60u8, 47u8] + k.spec_name() + seq![62u8];
        if self.minify {
            tag
        } else {
            self.ind_at(depth) + tag + seq![10u8]
        }
    }
}


/// The raw kind of a start tag, if it opens a literal body.
pub open spec fn start_kind(t: Markup) -> Option<RawKind> {
    match t {
        Markup::Start(c) => raw_kind_of(tag_name(c)),
        _ => None,
    }
}

/// Whether an event ends on output of its own: neither an end of input nor an error.
pub open spec fn is_markup(t: Markup) -> bool {
    !(t is Eof) && !(t is Invalid)
}

impl<'a> Html<'a> {
    /// What a start tag of a literal body sets: the body to read next and the script
    /// formatting flag; a script with a `src` attribute sets neither.
    pub open spec fn raw_step(&self, t: Markup, k: RawKind, out: Seq<u8>, indent: usize) -> Step {
        let c = match t {
            Markup::Start(c) => c,
            _ => Seq::empty(),
        };
        let captured = k != RawKind::Script || script_captured(c);
        Step {
            out,
            indent,
            noindent: self.noindent,
            wbuf: if captured { Some(k) } else { self.wbuf },
            fmt: if k == RawKind::Script && captured { script_formatted(c) } else { self.fmt },
        }
    }

    /// One event of a prettifying pass: what it writes and the state it leaves.
    pub open spec fn pretty_step(&self, t: Markup) -> Option<Step> {
        let ind = self.spec_ind();
        match emitted(self.config.html.fmt_attrs, t) {
            None => None,
            Some(e) => Some(
                if start_kind(t) is Some {
                    self.raw_step(t, start_kind(t)->0, ind + e + seq![10u8], inc(self.indent))
                } else if self.noindent > 0 {
                    match t {
                        Markup::Start(c) => {
                            let void = is_void(tag_name(c));
                            Step {
                                out: e,
                                indent: if void { self.indent } else { inc(self.indent) },
                                noindent: if void { self.noindent } else { inc(self.noindent) },
                                wbuf: self.wbuf,
                                fmt: self.fmt,
                            }
                        },
                        Markup::Empty(c) => {
                            let void = is_void(tag_name(c));
                            Step {
                                out: e,
                                indent: if void { self.indent } else { inc(self.indent) },
                                noindent: if void { self.noindent } else { inc(self.noindent) },
                                wbuf: self.wbuf,
                                fmt: self.fmt,
                            }
                        },
                        Markup::End(_) => Step {
                            out: if dec(self.noindent) == 0 { e + seq![10u8] } else { e },
                            indent: dec(self.indent),
                            noindent: dec(self.noindent),
                            wbuf: self.wbuf,
                            fmt: self.fmt,
                        },
                        Markup::Text(x) => Step { out: collapse(x), ..self.keep() },
                        _ => Step { out: e, ..self.keep() },
                    }
                } else {
                    match t {
                        Markup::Start(c) => {
                            let noind = is_noindent_tag(self.config, lower_seq(tag_name(c)));
                            Step {
                                out: if noind { ind + e } else { ind + e + seq![10u8] },
                                indent: if is_void(tag_name(c)) { self.indent } else { inc(self.indent) },
                                noindent: if noind { inc(self.noindent) } else { self.noindent },
                                wbuf: self.wbuf,
                                fmt: self.fmt,
                            }
                        },
                        Markup::End(_) => Step {
                            out: self.ind_at(dec(self.indent)) + e + seq![10u8],
                            indent: dec(self.indent),
                            ..self.keep()
                        },
                        Markup::Text(x) => Step { out: indented_block(x, ind), ..self.keep() },
                        _ => Step { out: ind + e + seq![10u8], ..self.keep() },
                    }
                },
            ),
        }
    }

    /// One event of a minifying pass: what it writes and the state it leaves.
    pub open spec fn minify_step(&self, t: Markup) -> Option<Step> {
        match emitted(self.config.html.fmt_attrs, t) {
            None => None,
            Some(e) => Some(
                if start_kind(t) is Some {
                    self.raw_step(t, start_kind(t)->0, e, self.indent)
                } else {
                    match t {
                        Markup::Comment(_) => if self.config.html.uglify_rm_comments {
                            self.keep()
                        } else {
                            Step { out: e, ..self.keep() }
                        },
                        Markup::Text(x) => Step { out: collapse(x), ..self.keep() },
                        _ => Step { out: e, ..self.keep() },
                    }
                },
            ),
        }
    }

    /// The state as it is, with nothing written.
    pub open spec fn keep(&self) -> Step {
        Step {
            out: Seq::empty(),
            indent: self.indent,
            noindent: self.noindent,
            wbuf: self.wbuf,
            fmt: self.fmt,
        }
    }

    /// The state is `st`'s, after `o`'s output and `st`'s.
    pub open spec fn stepped(&self, o: &Html<'a>, st: Step) -> bool {
        self.out@ == o.out@ + st.out && self.indent == st.indent && self.noindent == st.noindent
            && self.wbuf == st.wbuf && self.fmt == st.fmt && self.same_input(o) && self.pos
            == o.pos && self.raw_start == o.raw_start
    }

    /// Handles a start tag that opens a literal body; its output is written already.
    fn start_raw(&mut self, t: &Tok, k: RawKind)
        requires
            start_kind(t@) == Some(k),
        ensures
            final(self).wbuf == old(self).raw_step(t@, k, Seq::empty(), 0).wbuf,
            final(self).fmt == old(self).raw_step(t@, k, Seq::empty(), 0).fmt,
            final(self).out == old(self).out,
            final(self).indent == old(self).indent,
            final(self).noindent == old(self).noindent,
            final(self).same_input(old(self)),
            final(self).pos == old(self).pos,
            final(self).raw_start == old(self).raw_start,
    {
        match k {
            RawKind::Script => {
                if let Tok::Start(c) = t {
                    let (captured, f) = script_gate(c.as_slice());
                    if captured {
                        self.wbuf = Some(RawKind::Script);
                        self.fmt = f;
                    }
                }
            },
            _ => {
                self.wbuf = Some(k);
            },
        }
    }
}


/// The name of a tag, from its content.
pub fn tag_name_of(content: &[u8]) -> (r: Vec<u8>)
    ensures
        r@ == tag_name(content@),
{
    let n = name_len(content);
    let mut r: Vec<u8> = Vec::new();
    crate::text::push_range(&mut r, content, 0, n);
    r
}

fn start_kind_of(t: &Tok) -> (r: Option<RawKind>)
    ensures
        r == start_kind(t@),
{
    match t {
        Tok::Start(c) => {
            let n = tag_name_of(c.as_slice());
            raw_kind(n.as_slice())
        },
        _ => None,
    }
}

fn inc_usize(n: usize) -> (r: usize)
    ensures
        r == inc(n),
{
    if n < usize::MAX {
        n + 1
    } else {
        n
    }
}

fn dec_usize(n: usize) -> (r: usize)
    ensures
        r == dec(n),
{
    if n > 0 {
        n - 1
    } else {
        0
    }
}

impl<'a> Html<'a> {
    /// Handles one event of a prettifying pass; `false` where a tag's attributes
    /// cannot be put in canonical form.
    fn pretty_event(&mut self, t: &Tok) -> (r: bool)
        requires
            is_markup(t@),
        ensures
            match old(self).blank().pretty_step(t@) {
                None => !r,
                Some(st) => r && final(self).stepped(old(self), st),
            },
            final(self).same_input(old(self)),
            final(self).pos == old(self).pos,
            final(self).raw_start == old(self).raw_start,
    {
        let ghost e = emitted(old(self).config.html.fmt_attrs, t@)->0;
        let ghost ind = old(self).spec_ind();
        if let Some(k) = start_kind_of(t) {
            self.write_indent_at(self.indent);
            if !self.write_event(t) {
                return false;
            }
            self.write_byte(10u8);
            self.indent = inc_usize(self.indent);
            self.start_raw(t, k);
            assert(self.out@ =~= old(self).out@ + (ind + e + seq![10u8]));
            return true;
        }
        if self.noindent > 0 {
            match t {
                Tok::Start(c) => {
                    let name = tag_name_of(c.as_slice());
                    if !self.write_event(t) {
                        return false;
                    }
                    if !is_void_name(name.as_slice()) {
                        self.indent = inc_usize(self.indent);
                        self.noindent = inc_usize(self.noindent);
                    }
                },
                Tok::Empty(c) => {
                    let name = tag_name_of(c.as_slice());
                    if !self.write_event(t) {
                        return false;
                    }
                    if !is_void_name(name.as_slice()) {
                        self.indent = inc_usize(self.indent);
                        self.noindent = inc_usize(self.noindent);
                    }
                },
                Tok::End(_) => {
                    if !self.write_event(t) {
                        return false;
                    }
                    self.indent = dec_usize(self.indent);
                    self.noindent = dec_usize(self.noindent);
                    if self.noindent == 0 {
                        self.write_byte(10u8);
                        assert(self.out@ =~= old(self).out@ + (e + seq![10u8]));
                    }
                },
                Tok::Text(x) => {
                    let c = collapse_text(x.as_slice());
                    self.write_bytes(c.as_slice());
                },
                _ => {
                    if !self.write_event(t) {
                        return false;
                    }
                },
            }
            return true;
        }
        match t {
            Tok::Start(c) => {
                let name = tag_name_of(c.as_slice());
                let lname = to_lower(name.as_slice());
                let noind = noindent_tag(self.config, lname.as_slice());
                let void = is_void_name(name.as_slice());
                self.write_indent_at(self.indent);
                if !self.write_event(t) {
                    return false;
                }
                if !noind {
                    self.write_byte(10u8);
                    assert(self.out@ =~= old(self).out@ + (ind + e + seq![10u8]));
                } else {
                    assert(self.out@ =~= old(self).out@ + (ind + e));
                }
                if !void {
                    self.indent = inc_usize(self.indent);
                }
                if noind {
                    self.noindent = inc_usize(self.noindent);
                }
            },
            Tok::End(_) => {
                self.indent = dec_usize(self.indent);
                self.write_indent_at(self.indent);
                if !self.write_event(t) {
                    return false;
                }
                self.write_byte(10u8);
                assert(self.out@ =~= old(self).out@ + (old(self).ind_at(dec(old(self).indent)) + e + seq![10u8]));
            },
            Tok::Text(x) => {
                let w = match self.config.html.prettify_indent_num.checked_mul(self.indent) {
                    Some(w) => w,
                    None => usize::MAX,
                };
                let mut ind: Vec<u8> = Vec::new();
                push_repeat(&mut ind, self.config.html.prettify_indent_kind.to_byte(), w);
                assert(ind@ =~= self.spec_ind());
                push_indented_block(&mut self.out, x.as_slice(), ind.as_slice());
            },
            _ => {
                self.write_indent_at(self.indent);
                if !self.write_event(t) {
                    return false;
                }
                self.write_byte(10u8);
                assert(self.out@ =~= old(self).out@ + (ind + e + seq![10u8]));
            },
        }
        true
    }

    /// Handles one event of a minifying pass; `false` where a tag's attributes cannot
    /// be put in canonical form.
    fn minify_event(&mut self, t: &Tok) -> (r: bool)
        requires
            is_markup(t@),
        ensures
            match old(self).blank().minify_step(t@) {
                None => !r,
                Some(st) => r && final(self).stepped(old(self), st),
            },
            final(self).same_input(old(self)),
            final(self).pos == old(self).pos,
            final(self).raw_start == old(self).raw_start,
    {
        if let Some(k) = start_kind_of(t) {
            if !self.write_event(t) {
                return false;
            }
            self.start_raw(t, k);
            return true;
        }
        match t {
            Tok::Comment(_) => {
                if self.config.html.uglify_rm_comments {
                    assert(self.out@ =~= old(self).out@ + Seq::<u8>::empty());
                    return true;
                }
                self.write_event(t)
            },
            Tok::Text(x) => {
                let c = collapse_text(x.as_slice());
                self.write_bytes(c.as_slice());
                true
            },
            _ => self.write_event(t),
        }
    }
}


impl<'a> Html<'a> {
    /// What a literal body becomes in the output; `None` where the embedded formatter
    /// rejects it. Style sheets are always printed compact and optimized as
    /// configured; a script goes to the JavaScript formatter only where `fmt` holds.
    pub open spec fn raw_body(&self, k: RawKind, content: Seq<u8>) -> Result<Seq<u8>, Seq<char>> {
        let ind = self.spec_ind();
        match k {
            RawKind::Script => if self.fmt {
                match js_formatted(content, ScriptKind::commonjs_spec(), self.config, self.minify) {
                    Ok(v) => Ok(if self.minify { v } else { indented_block(v, ind) }),
                    Err(m) => Err(m),
                }
            } else {
                Ok(if self.minify { content } else { indented_block(content, ind) })
            },
            RawKind::Style => match css_formatted(content, self.config, true) {
                Ok(v) => Ok(if self.minify { v } else { indented_block(v, ind) }),
                Err(m) => Err(m),
            },
            RawKind::Pre => Ok(content),
        }
    }

    /// This state with its output left out, which no step reads.
    pub open spec fn blank(&self) -> Html<'a> {
        Html { out: arbitrary(), ..*self }
    }

    /// Reading the literal body that `wbuf` names, if any, up to its closing tag: what
    /// is written and the state after it; or the failure's offset and kind. A body
    /// with no closing tag fails at its start tag.
    pub open spec fn raw_capture(&self) -> Result<(Seq<u8>, Html<'a>), (int, Fault)> {
        match self.wbuf {
            None => Ok((Seq::empty(), self.blank())),
            Some(k) => {
                let t = k.spec_terminator();
                match close_from(self.src@, self.pos as int, t) {
                    None => Err((self.raw_start as int, Fault::Unterminated(k))),
                    Some(q) => {
                        let next = q + 1 + t.len();
                        match self.raw_body(k, self.src@.subrange(self.pos as int, q)) {
                            Err(m) => Err((next, Fault::Embedded(m))),
                            Ok(b) => Ok(
                                (
                                    b + self.end_written(k, dec(self.indent)),
                                    Html {
                                        out: arbitrary(),
                                        wbuf: None,
                                        pos: next as usize,
                                        indent: dec(self.indent),
                                        fmt: if k == RawKind::Script { false } else { self.fmt },
                                        ..*self
                                    },
                                ),
                            ),
                        }
                    },
                }
            },
        }
    }

    /// The state after an event's step, reading on from `next`.
    pub open spec fn after_event(&self, st: Step, next: usize) -> Html<'a> {
        Html {
            out: arbitrary(),
            indent: st.indent,
            noindent: st.noindent,
            wbuf: st.wbuf,
            fmt: st.fmt,
            pos: next,
            raw_start: if st.wbuf is Some { self.pos } else { self.raw_start },
            ..*self
        }
    }

    /// The whole pass from this state: what it writes, or the failure's offset and
    /// kind. Each event is read from `pos` and goes through `pretty_step` or
    /// `minify_step`; a start tag of a literal body then goes through `raw_capture`.
    /// Malformed markup fails at the reader's error position, unreadable attributes
    /// after their tag.
    pub open spec fn pass(&self) -> Result<Seq<u8>, (int, Fault)>
        decreases self.src@.len() - self.pos,
    {
        let len = self.src@.len();
        if self.pos > len {
            Ok(Seq::empty())
        } else {
            let rem = (len - self.pos) as nat;
            let ev = event_at(self.src@, self.pos as int);
            let t = markup_of(ev.0, ev.1);
            if t is Eof {
                Ok(Seq::empty())
            } else if t is Invalid {
                Err((if ev.3 <= rem { self.pos + ev.3 } else { self.pos as int }, Fault::Syntax))
            } else if ev.2 == 0 || ev.2 > rem {
                Err((self.pos as int, Fault::Syntax))
            } else {
                let next = (self.pos + ev.2) as usize;
                let step = if self.minify { self.minify_step(t) } else { self.pretty_step(t) };
                match step {
                    None => Err((next as int, Fault::Attributes)),
                    Some(st) => match self.after_event(st, next).raw_capture() {
                        Err(e) => Err(e),
                        Ok((b, h)) => if self.pos < h.pos <= len && h.src@.len() == len {
                            match h.pass() {
                                Ok(o) => Ok(st.out + b + o),
                                Err(e) => Err(e),
                            }
                        } else {
                            Ok(st.out + b)
                        },
                    },
                }
            }
        }
    }

    /// Writes a formatted body: inline when minifying, as an indented block otherwise.
    fn write_block(&mut self, b: &[u8])
        ensures
            final(self).out@ == old(self).out@ + (if old(self).minify {
                b@
            } else {
                indented_block(b@, old(self).spec_ind())
            }),
            final(self).same_state(old(self)),
    {
        if self.minify {
            self.write_bytes(b);
        } else {
            let w = match self.config.html.prettify_indent_num.checked_mul(self.indent) {
                Some(w) => w,
                None => usize::MAX,
            };
            let mut ind: Vec<u8> = Vec::new();
            push_repeat(&mut ind, self.config.html.prettify_indent_kind.to_byte(), w);
            assert(ind@ =~= self.spec_ind());
            push_indented_block(&mut self.out, b, ind.as_slice());
        }
    }

    /// Reads the literal body that `wbuf` names, up to its closing tag, and writes it
    /// with that closing tag.
    fn handle_buf(&mut self) -> (r: Result<(), Failure>)
        requires
            old(self).pos <= old(self).src@.len(),
            old(self).raw_start <= old(self).src@.len(),
        ensures
            final(self).same_input(old(self)),
            r is Ok ==> old(self).pos <= final(self).pos <= final(self).src@.len() && final(self).wbuf is None,
            old(self).wbuf is None ==> r is Ok && final(self).out == old(self).out && final(self).same_state(old(self)),
            r matches Err(f) ==> f.offset <= old(self).src@.len(),
            match old(self).blank().raw_capture() {
                Err((off, k)) => r matches Err(f) && f.offset == off && f.kind@ == k,
                Ok((b, h)) => r is Ok && final(self).out@ == old(self).out@ + b && final(self).blank() == h,
            },
    {
        let k = match self.wbuf {
            Some(k) => k,
            None => return Ok(()),
        };
        let t = k.terminator();
        let q = match find_close(self.src.as_slice(), self.pos, t.as_slice()) {
            None => return Err(Failure { offset: self.raw_start, kind: ErrorKind::Unterminated(k) }),
            Some(q) => q,
        };
        proof {
            lemma_close_from_bounds(self.src@, self.pos as int, t@);
            assert(is_close_at(self.src@, q as int, t@));
        }
        let mut body: Vec<u8> = Vec::new();
        crate::text::push_range(&mut body, self.src.as_slice(), self.pos, q);
        let len = self.src.len();
        let next = q + 1 + t.len();
        assert(next <= len);
        let ghost h = *old(self);
        match k {
            RawKind::Script => {
                if self.fmt {
                    match javascript::fmt_str(body.as_slice(), ScriptKind::commonjs(), self.config, self.minify) {
                        Err(m) => return Err(Failure { offset: next, kind: ErrorKind::Embedded(m) }),
                        Ok(v) => self.write_block(v.as_slice()),
                    }
                } else {
                    self.write_block(body.as_slice());
                }
                self.fmt = false;
            },
            RawKind::Style => {
                match css::fmt_str(body.as_slice(), self.config, true) {
                    Err(m) => return Err(Failure { offset: next, kind: ErrorKind::Embedded(m) }),
                    Ok(v) => self.write_block(v.as_slice()),
                }
            },
            RawKind::Pre => {
                self.write_bytes(body.as_slice());
            },
        }
        self.wbuf = None;
        self.pos = next;
        self.indent = dec_usize(self.indent);
        self.write_end(k);
        Ok(())
    }

    /// Reads and formats events from `pos` to the end of the document.
    #[verifier::rlimit(100)]
    fn run(&mut self) -> (r: Result<(), Failure>)
        requires
            old(self).wbuf is None,
            old(self).pos <= old(self).src@.len(),
            old(self).raw_start <= old(self).src@.len(),
        ensures
            final(self).same_input(old(self)),
            r matches Err(f) ==> f.offset <= old(self).src@.len(),
            match old(self).blank().pass() {
                Ok(o) => r is Ok && final(self).out@ == old(self).out@ + o,
                Err((off, k)) => r matches Err(f) && f.offset == off && f.kind@ == k,
            },
    {
        let ghost h = *old(self);
        let ghost mut acc: Seq<u8> = Seq::empty();
        loop
            invariant
                self.wbuf is None,
                self.pos <= self.src@.len(),
                self.raw_start <= self.src@.len(),
                self.same_input(&h),
                h == *old(self),
                self.out@ == h.out@ + acc,
                h.blank().pass() == prepend(acc, self.blank().pass()),
            decreases self.src@.len() - self.pos,
        {
            let ghost s0 = *self;
            let len = self.src.len();
            let remaining = len - self.pos;
            let (t, adv, err) = read_event_at(self.src.as_slice(), self.pos);
            match t {
                Tok::Eof => {
                    assert(self.out@ =~= h.out@ + acc + Seq::<u8>::empty());
                    return Ok(());
                },
                Tok::Invalid => {
                    let off = if err <= remaining as u64 {
                        self.pos + err as usize
                    } else {
                        self.pos
                    };
                    return Err(Failure { offset: off, kind: ErrorKind::Syntax });
                },
                _ => {},
            }
            if adv == 0 || adv > remaining as u64 {
                return Err(Failure { offset: self.pos, kind: ErrorKind::Syntax });
            }
            let next = self.pos + adv as usize;
            let ok = if self.minify {
                self.minify_event(&t)
            } else {
                self.pretty_event(&t)
            };
            if !ok {
                return Err(Failure { offset: next, kind: ErrorKind::Attributes });
            }
            let ghost st = (if s0.minify { s0.blank().minify_step(t@) } else { s0.blank().pretty_step(t@) })->0;
            if self.wbuf.is_some() {
                self.raw_start = self.pos;
            }
            self.pos = next;
            let ghost s2 = *self;
            assert(s2.blank() == s0.blank().after_event(st, next));
            match self.handle_buf() {
                Ok(()) => {},
                Err(f) => return Err(f),
            }
            proof {
                let (b, h2) = s2.blank().raw_capture()->Ok_0;
                assert(self.blank() == h2);
                assert(s0.blank().pass() == prepend(st.out + b, h2.pass()));
                lemma_prepend_twice(acc, st.out + b, self.blank().pass());
                acc = acc + (st.out + b);
                assert(self.out@ =~= h.out@ + acc);
            }
        }
    }
}

/// `p` before a pass's output; the failure unchanged.
pub open spec fn prepend(p: Seq<u8>, r: Result<Seq<u8>, (int, Fault)>) -> Result<Seq<u8>, (int, Fault)> {
    match r {
        Ok(o) => Ok(p + o),
        Err(e) => Err(e),
    }
}

proof fn lemma_prepend_twice(p: Seq<u8>, q: Seq<u8>, r: Result<Seq<u8>, (int, Fault)>)
    ensures
        prepend(p, prepend(q, r)) == prepend(p + q, r),
{
    if let Ok(o) = r {
        assert(p + (q + o) =~= (p + q) + o);
    }
}

/// A position as the line and column numbers it holds.
pub open spec fn position_view(p: Option<(usize, usize)>) -> Option<(nat, nat)> {
    match p {
        Some((l, c)) => Some((l as nat, c as nat)),
        None => None,
    }
}

impl<'a> Html<'a> {
    /// Starts a pass over `src`: nothing written, at depth zero, reading from the start.
    pub fn new(src: &str, config: &'a Config) -> (r: Html<'a>)
        ensures
            r.src@ == encode_utf8(src@),
            r.config == config,
            r.out@.len() == 0,
            r.wbuf is None,
            !r.minify,
            !r.fmt,
            r.indent == 0,
            r.noindent == 0,
            r.pos == 0,
            r.raw_start == 0,
    {
        let bytes = src.as_bytes();
        Html {
            src: vstd::slice::slice_to_vec(bytes),
            config,
            out: Vec::new(),
            wbuf: None,
            minify: false,
            fmt: false,
            indent: 0,
            noindent: 0,
            pos: 0,
            raw_start: 0,
        }
    }

    /// The whole pass over this state's document in the mode given: see `pass`.
    pub open spec fn pass_in(&self, minify: bool) -> Result<Seq<u8>, (int, Fault)> {
        Html { minify, out: arbitrary(), ..*self }.pass()
    }

    /// Runs the pass in the mode given, and returns what it wrote, or the failure
    /// with its line and column.
    fn finish(self, minify: bool) -> (r: Result<Vec<u8>, PositionedError>)
        requires
            self.wbuf is None,
            self.pos <= self.src@.len(),
            self.raw_start <= self.src@.len(),
        ensures
            match self.pass_in(minify) {
                Ok(o) => r matches Ok(v) && v@ == self.out@ + o,
                Err((off, k)) => r matches Err(e) && e.kind@ == k && position_view(e.position)
                    == spec_position(self.src@, off),
            },
    {
        let ghost src0 = self.src@;
        let mut h = self;
        h.minify = minify;
        assert(h.blank() == Html { minify, out: arbitrary(), ..self });
        match h.run() {
            Ok(()) => Ok(h.out),
            Err(f) => {
                let p = position(h.src.as_slice(), f.offset);
                assert(position_view(p) == spec_position(src0, f.offset as int));
                Err(PositionedError { position: p, kind: f.kind })
            },
        }
    }

    /// Prettifies the document: indented, one element per line, with inline elements
    /// kept on one line. The output, or the failure with its line and column, is
    /// that of the whole pass `pass_in(false)`.
    pub fn prettify(self) -> (r: Result<Vec<u8>, PositionedError>)
        requires
            self.wbuf is None,
            self.pos <= self.src@.len(),
            self.raw_start <= self.src@.len(),
        ensures
            match self.pass_in(false) {
                Ok(o) => r matches Ok(v) && v@ == self.out@ + o,
                Err((off, k)) => r matches Err(e) && e.kind@ == k && position_view(e.position)
                    == spec_position(self.src@, off),
            },
    {
        self.finish(false)
    }

    /// Minifies the document: whitespace between tags collapsed, comments dropped
    /// where configured, nothing added. The output, or the failure with its line and
    /// column, is that of the whole pass `pass_in(true)`.
    pub fn minify(self) -> (r: Result<Vec<u8>, PositionedError>)
        requires
            self.wbuf is None,
            self.pos <= self.src@.len(),
            self.raw_start <= self.src@.len(),
        ensures
            match self.pass_in(true) {
                Ok(o) => r matches Ok(v) && v@ == self.out@ + o,
                Err((off, k)) => r matches Err(e) && e.kind@ == k && position_view(e.position)
                    == spec_position(self.src@, off),
            },
    {
        self.finish(true)
    }
}


proof fn lemma_raw_names_not_void(name: Seq<u8>)
    requires
        raw_kind_of(name) is Some,
    ensures
        !is_void(name),
{
    assert(lower_seq(script_name()) =~= script_name());
    assert(lower_seq(style_name()) =~= style_name());
    assert(lower_seq(pre_name()) =~= pre_name());
    let l = lower_seq(name);
    assert forall|i: int| 0 <= i < void_tags().len() implies void_tags()[i] != l by {
        if void_tags()[i] == l {
            if l.len() == 6 {
                assert(void_tags()[i][1] != l[1]);
            } else if l.len() == 5 {
                assert(void_tags()[i][1] != l[1] || void_tags()[i][0] != l[0]);
            } else {
                assert(void_tags()[i][0] != l[0] || void_tags()[i][1] != l[1]);
            }
        }
    }
}

/// Void elements never deepen indentation: after the start tag of a void element,
/// plain or self-closing, whatever the state, prettifying goes on at the same depth.
pub proof fn void_tag_keeps_depth(h: Html, t: Markup)
    requires
        (t is Start && is_void(tag_name(t->Start_0))) || (t is Empty && is_void(
            tag_name(t->Empty_0),
        )),
    ensures
        h.pretty_step(t) matches Some(st) ==> st.indent == h.indent,
{
    if start_kind(t) is Some {
        lemma_raw_names_not_void(tag_name(t->Start_0));
    }

}

/// Minifying never indents: no event changes the depth.
pub proof fn minify_keeps_depth(h: Html, t: Markup)
    ensures
        h.minify_step(t) matches Some(st) ==> st.indent == h.indent,
{
}


/// Whether a start tag opens a literal body whose end tag the capture consumes.
pub open spec fn captured_start(t: Markup) -> bool {
    match start_kind(t) {
        Some(k) => k != RawKind::Script || script_captured(t->Start_0),
        None => false,
    }
}

/// How an event moves the nesting of elements among the events: `1` for a start tag
/// whose end tag is among them (neither void nor a captured literal body), `-1` for
/// an end tag, `0` for the others.
pub open spec fn nesting(t: Markup) -> int {
    match t {
        Markup::Start(c) => if is_void(tag_name(c)) || captured_start(t) {
            0
        } else {
            1
        },
        Markup::End(_) => -1,
        _ => 0,
    }
}

pub open spec fn nest_depth(ts: Seq<Markup>) -> int
    decreases ts.len(),
{
    if ts.len() == 0 {
        0
    } else {
        nest_depth(ts.drop_last()) + nesting(ts.last())
    }
}

/// Events of a well-nested document: no end tag closes more than was opened, and
/// everything opened is closed.
pub open spec fn well_nested(ts: Seq<Markup>) -> bool {
    &&& forall|i: int| 0 <= i <= ts.len() ==> nest_depth(#[trigger] ts.take(i)) >= 0
    &&& nest_depth(ts) == 0
}

/// The no-indent depth after an event of a prettifying pass.
pub open spec fn noindent_next(config: &Config, n: usize, t: Markup) -> usize {
    if start_kind(t) is Some {
        n
    } else if n > 0 {
        match t {
            Markup::Start(c) => if is_void(tag_name(c)) {
                n
            } else {
                inc(n)
            },
            Markup::Empty(c) => if is_void(tag_name(c)) {
                n
            } else {
                inc(n)
            },
            Markup::End(_) => dec(n),
            _ => n,
        }
    } else {
        match t {
            Markup::Start(c) => if is_noindent_tag(config, lower_seq(tag_name(c))) {
                inc(n)
            } else {
                n
            },
            _ => n,
        }
    }
}

/// The no-indent depth after a run of events, from depth `n`.
pub open spec fn noindent_after(config: &Config, n: usize, ts: Seq<Markup>) -> usize
    decreases ts.len(),
{
    if ts.len() == 0 {
        n
    } else {
        noindent_next(config, noindent_after(config, n, ts.drop_last()), ts.last())
    }
}

/// Whether no configured no-indent tag names a void element.
pub open spec fn noindent_tags_not_void(config: &Config) -> bool {
    forall|v: Seq<u8>| void_tags().contains(v) ==> !is_noindent_tag(config, v)
}

/// Whether no self-closing tag of a non-void element stands inside a no-indent
/// element: such a tag counts as opening one, and no end tag follows it.
pub open spec fn no_open_empty_inline(config: &Config, ts: Seq<Markup>) -> bool {
    forall|i: int|
        0 <= i < ts.len() && #[trigger] ts[i] is Empty && !is_void(tag_name(ts[i]->Empty_0))
            ==> noindent_after(config, 0, ts.take(i)) == 0
}

/// The no-indent depth that a prettifying step leaves is `noindent_next`'s.
pub proof fn pretty_step_noindent(h: Html, t: Markup)
    ensures
        h.pretty_step(t) matches Some(st) ==> st.noindent == noindent_next(h.config, h.noindent, t),
{
}

proof fn lemma_noindent_within_depth(config: &Config, ts: Seq<Markup>)
    requires
        forall|i: int| 0 <= i <= ts.len() ==> nest_depth(#[trigger] ts.take(i)) >= 0,
        noindent_tags_not_void(config),
        no_open_empty_inline(config, ts),
    ensures
        noindent_after(config, 0, ts) <= nest_depth(ts),
    decreases ts.len(),
{
    if ts.len() > 0 {
        let p = ts.drop_last();
        assert forall|i: int| 0 <= i <= p.len() implies nest_depth(#[trigger] p.take(i)) >= 0 by {
            assert(p.take(i) =~= ts.take(i));
            assert(nest_depth(ts.take(i)) >= 0);
        }
        assert forall|i: int|
            0 <= i < p.len() && #[trigger] p[i] is Empty && !is_void(tag_name(p[i]->Empty_0))
                implies noindent_after(config, 0, p.take(i)) == 0 by {
            assert(p.take(i) =~= ts.take(i));
            assert(p[i] == ts[i]);
        }
        assert(ts.take(ts.len() - 1) =~= p);
        assert(ts[ts.len() - 1] == ts.last());
        lemma_noindent_within_depth(config, p);
        assert(ts.take(ts.len() as int) =~= ts);
        assert(nest_depth(ts.take(ts.len() as int)) >= 0);
        let t = ts.last();
        if let Markup::Start(c) = t {
            if start_kind(t) is Some {
                lemma_raw_names_not_void(tag_name(c));
            } else if noindent_after(config, 0, p) == 0 && is_noindent_tag(
                config,
                lower_seq(tag_name(c)),
            ) {
                assert(!void_tags().contains(lower_seq(tag_name(c))));
            }
        }
    }
}

/// In a well-nested document, prettifying ends outside every no-indent element: the
/// no-indent depth, from zero, returns to zero. Left out are the documents where an
/// element counts as opened and has no end tag: a configured no-indent tag that names
/// a void element, and a non-void self-closing tag inside a no-indent element.
pub proof fn noindent_balanced(config: &Config, ts: Seq<Markup>)
    requires
        well_nested(ts),
        noindent_tags_not_void(config),
        no_open_empty_inline(config, ts),
    ensures
        noindent_after(config, 0, ts) == 0,
{
    lemma_noindent_within_depth(config, ts);
}

} // verus!
