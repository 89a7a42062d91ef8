use vstd::prelude::*;

use crate::text::{name_end, name_len, push_all};
use quick_xml::events::{BytesStart, Event};
use quick_xml::Reader;

verus! {

/// A markup event as bytes: see `Tok`.
pub ghost enum Markup {
    Start(Seq<u8>),
    End(Seq<u8>),
    Empty(Seq<u8>),
    Text(Seq<u8>),
    Comment(Seq<u8>),
    CData(Seq<u8>),
    Decl(Seq<u8>),
    PI(Seq<u8>),
    DocType(Seq<u8>),
    Eof,
    Invalid,
}

impl View for Tok {
    type V = Markup;

    open spec fn view(&self) -> Markup {
        match self {
            Tok::Start(c) => Markup::Start(c@),
            Tok::End(c) => Markup::End(c@),
            Tok::Empty(c) => Markup::Empty(c@),
            Tok::Text(c) => Markup::Text(c@),
            Tok::Comment(c) => Markup::Comment(c@),
            Tok::CData(c) => Markup::CData(c@),
            Tok::Decl(c) => Markup::Decl(c@),
            Tok::PI(c) => Markup::PI(c@),
            Tok::DocType(c) => Markup::DocType(c@),
            Tok::Eof => Markup::Eof,
            Tok::Invalid => Markup::Invalid,
        }
    }
}

/// One markup event, with the raw bytes that the tokenizer found in it.
pub enum Tok {
    /// A start tag: its content between `<` and `>`.
    Start(Vec<u8>),
    /// An end tag: its name.
    End(Vec<u8>),
    /// A self-closing tag: its content between `<` and `/>`.
    Empty(Vec<u8>),
    Text(Vec<u8>),
    Comment(Vec<u8>),
    CData(Vec<u8>),
    Decl(Vec<u8>),
    PI(Vec<u8>),
    DocType(Vec<u8>),
    Eof,
    /// Malformed markup.
    Invalid,
}

/// The event that opens `src` as quick_xml reads it: a kind code (`0` for the end of
/// input, `1` to `9` for start, end, empty, text, comment, CDATA, declaration,
/// processing instruction and document type, `10` for malformed markup), the
/// event's bytes, the reader's position after it and its error position.
pub uninterp spec fn markup_event(src: Seq<u8>) -> (nat, Seq<u8>, nat, nat);

/// Relies on quick_xml's `Reader::read_event` on a byte slice (which first drops a
/// leading UTF-8 byte-order mark and counts no position from it), with comments checked
/// and end tags taken as they come (a reader starts at each event, so it has seen no
/// start tag to match them with); the variant of the `Event` it returns, its bytes
/// (`Deref` to `[u8]`), and the reader's `buffer_position` and `error_position`.
#[verifier::external_body]
fn read_markup(src: &[u8]) -> (r: (u8, Vec<u8>, u64, u64))
    ensures
        markup_event(src@) == (r.0 as nat, r.1@, r.2 as nat, r.3 as nat),
{
    let mut r = Reader::from_reader(src);
    let c = r.config_mut();
    c.check_comments = true;
    c.check_end_names = false;
    c.allow_unmatched_ends = true;
    let e = r.read_event();
    let code = match &e {
        Ok(Event::Eof) => 0, Err(_) => 10,
        Ok(ev) => match ev {
            Event::Start(_) => 1, Event::End(_) => 2, Event::Empty(_) => 3, Event::Text(_) => 4,
            Event::Comment(_) => 5, Event::CData(_) => 6, Event::Decl(_) => 7, Event::PI(_) => 8,
            _ => 9,
        },
    };
    (code, e.map(|e| e.to_vec()).unwrap_or_default(), r.buffer_position(), r.error_position())
}

/// The event with kind code `code` and bytes `c`.
pub open spec fn markup_of(code: nat, c: Seq<u8>) -> Markup {
    if code == 1 {
        Markup::Start(c)
    } else if code == 2 {
        Markup::End(c)
    } else if code == 3 {
        Markup::Empty(c)
    } else if code == 4 {
        Markup::Text(c)
    } else if code == 5 {
        Markup::Comment(c)
    } else if code == 6 {
        Markup::CData(c)
    } else if code == 7 {
        Markup::Decl(c)
    } else if code == 8 {
        Markup::PI(c)
    } else if code == 9 {
        Markup::DocType(c)
    } else if code == 0 {
        Markup::Eof
    } else {
        Markup::Invalid
    }
}

/// Reads the event that opens `src`: the event (`Invalid` for malformed markup), the
/// position after it and the position of the error.
pub fn read_event(src: &[u8]) -> (r: (Tok, u64, u64))
    ensures
        ({
            let ev = markup_event(src@);
            r.0@ == markup_of(ev.0, ev.1) && r.1 as nat == ev.2 && r.2 as nat == ev.3
        }),
{
    let (code, c, pos, err) = read_markup(src);
    let t = if code == 1 {
        Tok::Start(c)
    } else if code == 2 {
        Tok::End(c)
    } else if code == 3 {
        Tok::Empty(c)
    } else if code == 4 {
        Tok::Text(c)
    } else if code == 5 {
        Tok::Comment(c)
    } else if code == 6 {
        Tok::CData(c)
    } else if code == 7 {
        Tok::Decl(c)
    } else if code == 8 {
        Tok::PI(c)
    } else if code == 9 {
        Tok::DocType(c)
    } else if code == 0 {
        Tok::Eof
    } else {
        Tok::Invalid
    };
    (t, pos, err)
}

/// The value of the attribute named `key` in a tag's content whose name is
/// `name_len` bytes long, as quick_xml reads it.
pub uninterp spec fn attribute_of(content: Seq<u8>, name_len: nat, key: Seq<u8>) -> Option<Seq<u8>>;

/// Relies on quick_xml's `BytesStart::try_get_attribute`: the value of the first
/// attribute named `key`; `None` where there is none or the list is malformed.
#[verifier::external_body]
fn try_get_attribute(content: &[u8], name_len: usize, key: &[u8]) -> (r: Option<Vec<u8>>)
    requires
        name_len <= content@.len(),
    ensures
        match r {
            None => attribute_of(content@, name_len as nat, key@) is None,
            Some(v) => attribute_of(content@, name_len as nat, key@) == Some(v@),
        },
{
    let tag = BytesStart::from_content(String::from_utf8_lossy(content), name_len);
    tag.try_get_attribute(key).ok().flatten().map(|a| a.value.into_owned())
}

/// The value of attribute `key` of a start tag with content `content`.
pub fn get_attr(content: &[u8], key: &[u8]) -> (r: Option<Vec<u8>>)
    ensures
        match r {
            None => attribute_of(content@, name_end(content@, 0) as nat, key@) is None,
            Some(v) => attribute_of(content@, name_end(content@, 0) as nat, key@) == Some(v@),
        },
{
    let n = name_len(content);
    try_get_attribute(content, n, key)
}

/// The attributes of a tag's content whose name is `name_len` bytes long, read with
/// HTML's rules by quick_xml; `None` where one of them is malformed.
pub uninterp spec fn html_attributes_of(content: Seq<u8>, name_len: nat) -> Option<Seq<(Seq<u8>, Seq<u8>)>>;

pub open spec fn pair_view(p: (Vec<u8>, Vec<u8>)) -> (Seq<u8>, Seq<u8>) {
    (p.0@, p.1@)
}

/// Relies on quick_xml's `BytesStart::html_attributes`: each attribute's key and
/// value; `None` where an attribute is malformed.
#[verifier::external_body]
fn html_attributes(content: &[u8], name_len: usize) -> (r: Option<Vec<(Vec<u8>, Vec<u8>)>>)
    requires
        name_len <= content@.len(),
    ensures
        match r {
            None => html_attributes_of(content@, name_len as nat) is None,
            Some(v) => html_attributes_of(content@, name_len as nat) == Some(
                v@.map_values(|p: (Vec<u8>, Vec<u8>)| pair_view(p)),
            ),
        },
{
    let tag = BytesStart::from_content(String::from_utf8_lossy(content), name_len);
    let attrs = tag.html_attributes().map(|a| a.ok().map(|a| (a.key.as_ref().to_vec(), a.value.into_owned())));
    attrs.collect()
}

/// ` key="value"`.
pub open spec fn attr_text(p: (Seq<u8>, Seq<u8>)) -> Seq<u8> {
    seq![32u8] + p.0 + seq![61u8, 34u8] + p.1 + seq![34u8]
}

pub open spec fn attrs_text(a: Seq<(Seq<u8>, Seq<u8>)>) -> Seq<u8>
    decreases a.len(),
{
    if a.len() == 0 {
        Seq::empty()
    } else {
        attrs_text(a.drop_last()) + attr_text(a.last())
    }
}

/// A tag's content in canonical form: its name, then each attribute as `key="value"`
/// after one space; `None` where the attribute list is malformed.
pub open spec fn canonical_content(content: Seq<u8>) -> Option<Seq<u8>> {
    let n = name_end(content, 0);
    match html_attributes_of(content, n as nat) {
        None => None,
        Some(a) => Some(content.subrange(0, n) + attrs_text(a)),
    }
}

/// Rebuilds a tag's content in canonical form: see `canonical_content`.
pub fn canonical_tag(content: &[u8]) -> (r: Option<Vec<u8>>)
    ensures
        match r {
            None => canonical_content(content@) is None,
            Some(v) => canonical_content(content@) == Some(v@),
        },
{
    let n = name_len(content);
    proof {
        lemma_name_end_bounds(content@, 0);
    }
    let attrs = match html_attributes(content, n) {
        None => return None,
        Some(a) => a,
    };
    let ghost av = attrs@.map_values(|p: (Vec<u8>, Vec<u8>)| pair_view(p));
    let mut out: Vec<u8> = Vec::new();
    crate::text::push_range(&mut out, content, 0, n);
    let mut i: usize = 0;
    while i < attrs.len()
        invariant
            i <= attrs@.len(),
            n <= content@.len(),
            av == attrs@.map_values(|p: (Vec<u8>, Vec<u8>)| pair_view(p)),
            out@ == content@.subrange(0, n as int) + attrs_text(av.subrange(0, i as int)),
        decreases attrs@.len() - i,
    {
        let ghost before = out@;
        out.push(32u8);
        push_all(&mut out, attrs[i].0.as_slice());
        out.push(61u8);
        out.push(34u8);
        push_all(&mut out, attrs[i].1.as_slice());
        out.push(34u8);
        proof {
            assert(av.subrange(0, i + 1).drop_last() =~= av.subrange(0, i as int));
            assert(av[i as int] == pair_view(attrs@[i as int]));
            assert(out@ =~= before + attr_text(av[i as int]));
        }
        i = i + 1;
    }
    assert(av.subrange(0, av.len() as int) =~= av);
    Some(out)
}

proof fn lemma_name_end_bounds(s: Seq<u8>, i: int)
    requires
        0 <= i <= s.len(),
    ensures
        i <= name_end(s, i) <= s.len(),
    decreases s.len() - i,
{
    if i < s.len() && !crate::text::ends_name(s[i]) {
        lemma_name_end_bounds(s, i + 1);
    }
}

/// The bytes that a markup writer emits for an event.
pub open spec fn written(t: Markup) -> Seq<u8> {
    match t {
        Markup::Start(c) => seq![60u8] + c + seq![62u8],
        Markup::End(n) => seq![60u8, 47u8] + n + seq![62u8],
        Markup::Empty(c) => seq![60u8] + c + seq![47u8, 62u8],
        Markup::Text(c) => c,
        Markup::Comment(c) => seq![60u8, 33u8, 45u8, 45u8] + c + seq![45u8, 45u8, 62u8],
        Markup::CData(c) => seq![60u8, 33u8, 91u8, 67u8, 68u8, 65u8, 84u8, 65u8, 91u8] + c + seq![
            93u8,
            93u8,
            62u8,
        ],
        Markup::Decl(c) => seq![60u8, 63u8] + c + seq![63u8, 62u8],
        Markup::PI(c) => seq![60u8, 63u8] + c + seq![63u8, 62u8],
        Markup::DocType(c) => seq![60u8, 33u8, 68u8, 79u8, 67u8, 84u8, 89u8, 80u8, 69u8, 32u8] + c
            + seq![62u8],
        Markup::Eof => Seq::empty(),
        Markup::Invalid => Seq::empty(),
    }
}

/// Appends `pre`, `body` and `post`.
fn push_wrapped(out: &mut Vec<u8>, pre: Vec<u8>, body: &[u8], post: Vec<u8>)
    ensures
        final(out)@ == old(out)@ + pre@ + body@ + post@,
{
    push_all(out, pre.as_slice());
    push_all(out, body);
    push_all(out, post.as_slice());
}

/// Appends what a markup writer emits for `t`.
pub fn write_tok(out: &mut Vec<u8>, t: &Tok)
    ensures
        final(out)@ == old(out)@ + written(t@),
{
    match t {
        Tok::Start(c) => push_wrapped(out, vec![60u8], c.as_slice(), vec![62u8]),
        Tok::End(n) => push_wrapped(out, vec![60u8, 47u8], n.as_slice(), vec![62u8]),
        Tok::Empty(c) => push_wrapped(out, vec![60u8], c.as_slice(), vec![47u8, 62u8]),
        Tok::Text(c) => push_all(out, c.as_slice()),
        Tok::Comment(c) => push_wrapped(
            out,
            vec![60u8, 33u8, 45u8, 45u8],
            c.as_slice(),
            vec![45u8, 45u8, 62u8],
        ),
        Tok::CData(c) => push_wrapped(
            out,
            vec![60u8, 33u8, 91u8, 67u8, 68u8, 65u8, 84u8, 65u8, 91u8],
            c.as_slice(),
            vec![93u8, 93u8, 62u8],
        ),
        Tok::Decl(c) => push_wrapped(out, vec![60u8, 63u8], c.as_slice(), vec![63u8, 62u8]),
        Tok::PI(c) => push_wrapped(out, vec![60u8, 63u8], c.as_slice(), vec![63u8, 62u8]),
        Tok::DocType(c) => push_wrapped(
            out,
            vec![60u8, 33u8, 68u8, 79u8, 67u8, 84u8, 89u8, 80u8, 69u8, 32u8],
            c.as_slice(),
            vec![62u8],
        ),
        Tok::Eof => {
            assert(old(out)@ + written(t@) =~= out@);
        },
        Tok::Invalid => {
            assert(old(out)@ + written(t@) =~= out@);
        },
    }
}


/// The UTF-8 byte-order mark.
pub open spec fn bom() -> Seq<u8> {
    seq![0xEFu8, 0xBBu8, 0xBFu8]
}

pub open spec fn starts_with_bom(s: Seq<u8>) -> bool {
    s.len() >= 3 && s.subrange(0, 3) == bom()
}

/// `x + 3`, held at the largest `u64`.
pub open spec fn add3(x: nat) -> nat {
    if x + 3 <= u64::MAX {
        x + 3
    } else {
        u64::MAX as nat
    }
}

/// The event read from offset `pos` of the document `src`, with its positions
/// relative to `pos`. A reader drops a byte-order mark it starts on: at the start of
/// the document that mark is skipped and counted; further on it is text, so the
/// reader is handed one more mark to drop.
pub open spec fn event_at(src: Seq<u8>, pos: int) -> (nat, Seq<u8>, nat, nat) {
    let rest = src.subrange(pos, src.len() as int);
    if starts_with_bom(rest) {
        if pos == 0 {
            let e = markup_event(rest);
            (e.0, e.1, add3(e.2), add3(e.3))
        } else {
            markup_event(bom() + rest)
        }
    } else {
        markup_event(rest)
    }
}

fn add3_u64(x: u64) -> (r: u64)
    ensures
        r as nat == add3(x as nat),
{
    if x <= u64::MAX - 3 {
        x + 3
    } else {
        u64::MAX
    }
}

/// Reads the event at offset `pos` of `src`: see `event_at`.
pub fn read_event_at(src: &[u8], pos: usize) -> (r: (Tok, u64, u64))
    requires
        pos <= src@.len(),
    ensures
        ({
            let ev = event_at(src@, pos as int);
            r.0@ == markup_of(ev.0, ev.1) && r.1 as nat == ev.2 && r.2 as nat == ev.3
        }),
{
    let rest = vstd::slice::slice_subrange(src, pos, src.len());
    let has_bom = rest.len() >= 3 && rest[0] == 0xEFu8 && rest[1] == 0xBBu8 && rest[2] == 0xBFu8;
    proof {
        if has_bom {
            assert(rest@.subrange(0, 3) =~= bom());
        } else if rest@.len() >= 3 {
            assert(rest@.subrange(0, 3)[0] == rest@[0]);
            assert(rest@.subrange(0, 3)[1] == rest@[1]);
            assert(rest@.subrange(0, 3)[2] == rest@[2]);
        }
    }
    if has_bom {
        if pos == 0 {
            let (t, a, e) = read_event(rest);
            (t, add3_u64(a), add3_u64(e))
        } else {
            let mut buf: Vec<u8> = vec![0xEFu8, 0xBBu8, 0xBFu8];
            assert(buf@ =~= bom());
            push_all(&mut buf, rest);
            read_event(buf.as_slice())
        }
    } else {
        read_event(rest)
    }
}

} // verus!
