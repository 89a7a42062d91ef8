use vstd::prelude::*;

verus! {

/// Tab, newline and space: the bytes whose runs collapse to one space.
pub open spec fn is_collapsible(b: u8) -> bool {
    b == 9u8 || b == 10u8 || b == 32u8
}

/// Single-byte whitespace: tab, newline, vertical tab, form feed, carriage return
/// and space.
pub open spec fn is_blank(b: u8) -> bool {
    9u8 <= b <= 13u8 || b == 32u8
}

/// A UTF-8 continuation byte, which never starts a character.
pub open spec fn is_continuation(b: u8) -> bool {
    128u8 <= b && b < 192u8
}

/// The three-byte UTF-8 encodings of Unicode whitespace: U+1680, U+2000 to U+200A,
/// U+2028, U+2029, U+202F, U+205F and U+3000.
pub open spec fn is_blank3(a: u8, b: u8, c: u8) -> bool {
    (a == 0xE1u8 && b == 0x9Au8 && c == 0x80u8) || (a == 0xE2u8 && b == 0x80u8 && ((0x80u8 <= c
        && c <= 0x8Au8) || c == 0xA8u8 || c == 0xA9u8 || c == 0xAFu8)) || (a == 0xE2u8 && b
        == 0x81u8 && c == 0x9Fu8) || (a == 0xE3u8 && b == 0x80u8 && c == 0x80u8)
}

/// The length of the Unicode whitespace character encoded at index `i` of UTF-8 text,
/// or zero where none starts there. Besides the single bytes of `is_blank`, these are
/// U+0085 and U+00A0 (two bytes) and those of `is_blank3`.
pub open spec fn blank_len(s: Seq<u8>, i: int) -> int {
    if 0 <= i < s.len() && is_blank(s[i]) {
        1
    } else if 0 <= i && i + 1 < s.len() && s[i] == 0xC2u8 && (s[i + 1] == 0x85u8 || s[i + 1]
        == 0xA0u8) {
        2
    } else if 0 <= i && i + 2 < s.len() && is_blank3(s[i], s[i + 1], s[i + 2]) {
        3
    } else {
        0
    }
}

/// Whether UTF-8 text is made of whitespace characters only.
pub open spec fn all_blank(s: Seq<u8>) -> bool {
    skip_blank(s, 0) == s.len()
}

/// The index of the first byte at or after `i` that is not collapsible, or the length.
pub open spec fn skip_collapsible(s: Seq<u8>, i: int) -> int
    decreases s.len() - i,
{
    if 0 <= i < s.len() && is_collapsible(s[i]) {
        skip_collapsible(s, i + 1)
    } else {
        i
    }
}

/// The end of `s[..j]` once its trailing collapsible bytes are dropped.
pub open spec fn back_collapsible(s: Seq<u8>, j: int) -> int
    decreases j,
{
    if 0 < j <= s.len() && is_collapsible(s[j - 1]) {
        back_collapsible(s, j - 1)
    } else {
        j
    }
}

/// Where the first character at or after `i` that is not whitespace starts, or the
/// length.
pub open spec fn skip_blank(s: Seq<u8>, i: int) -> int
    decreases s.len() - i,
{
    if 0 <= i < s.len() && blank_len(s, i) > 0 {
        skip_blank(s, i + blank_len(s, i))
    } else {
        i
    }
}

/// Scanning from `i`, where the last character that is not whitespace ends; `e` if
/// there is none.
pub open spec fn content_end(s: Seq<u8>, i: int, e: int) -> int
    decreases s.len() - i,
{
    if i < 0 || i >= s.len() {
        e
    } else if blank_len(s, i) > 0 {
        content_end(s, i + blank_len(s, i), e)
    } else {
        content_end(s, i + 1, i + 1)
    }
}

/// UTF-8 text without its leading and trailing whitespace characters.
pub open spec fn trim_blank(s: Seq<u8>) -> Seq<u8> {
    let a = skip_blank(s, 0);
    s.subrange(a, content_end(s, a, a))
}

/// Text with each leading or trailing run of tabs, newlines and spaces turned into
/// a single space; text made of whitespace alone becomes one space.
pub open spec fn collapse(s: Seq<u8>) -> Seq<u8> {
    if s.len() == 0 {
        Seq::empty()
    } else if all_blank(s) {
        seq![32u8]
    } else {
        let a = skip_collapsible(s, 0);
        let b = back_collapsible(s, s.len() as int);
        (if a > 0 { seq![32u8] } else { Seq::empty() }) + s.subrange(a, b) + (if b < s.len() {
            seq![32u8]
        } else {
            Seq::empty()
        })
    }
}

/// The index of the first newline at or after `i`, or the length.
pub open spec fn line_end(s: Seq<u8>, i: int) -> int
    decreases s.len() - i,
{
    if 0 <= i < s.len() && s[i] != 10u8 {
        line_end(s, i + 1)
    } else {
        i
    }
}

/// The lines of `s` from index `i` on, each one that is not all whitespace prefixed
/// with `ind` and ended with a newline; blank lines are dropped.
pub open spec fn indent_lines(s: Seq<u8>, i: int, ind: Seq<u8>) -> Seq<u8>
    decreases s.len() - i,
{
    if i < 0 || i > s.len() {
        Seq::empty()
    } else {
        let j = line_end(s, i);
        let line = s.subrange(i, j);
        let head = if !all_blank(line) { ind + line + seq![10u8] } else { Seq::empty() };
        if i <= j < s.len() {
            head + indent_lines(s, j + 1, ind)
        } else {
            head
        }
    }
}

/// Text trimmed of surrounding whitespace and re-emitted line by line under `ind`.
pub open spec fn indented_block(s: Seq<u8>, ind: Seq<u8>) -> Seq<u8> {
    indent_lines(trim_blank(s), 0, ind)
}

/// Number of newlines in `s`.
pub open spec fn count_lines(s: Seq<u8>) -> nat
    decreases s.len(),
{
    if s.len() == 0 {
        0
    } else {
        count_lines(s.drop_last()) + if s.last() == 10u8 {
            1nat
        } else {
            0nat
        }
    }
}

/// Number of characters after the last newline of `s` (of `s` if it has none).
pub open spec fn count_cols(s: Seq<u8>) -> nat
    decreases s.len(),
{
    if s.len() == 0 {
        0
    } else if s.last() == 10u8 {
        0
    } else {
        count_cols(s.drop_last()) + if is_continuation(s.last()) {
            0nat
        } else {
            1nat
        }
    }
}

/// Where a byte offset of UTF-8 text lies, as a 0-based line and column; `None`
/// when it is past the end or inside a character.
pub open spec fn spec_position(s: Seq<u8>, pos: int) -> Option<(nat, nat)> {
    if pos < 0 || pos > s.len() || (pos < s.len() && is_continuation(s[pos])) {
        None
    } else {
        Some((count_lines(s.subrange(0, pos)), count_cols(s.subrange(0, pos))))
    }
}

pub fn is_collapsible_byte(b: u8) -> (r: bool)
    ensures
        r == is_collapsible(b),
{
    b == 9u8 || b == 10u8 || b == 32u8
}

pub fn is_blank_byte(b: u8) -> (r: bool)
    ensures
        r == is_blank(b),
{
    (9u8 <= b && b <= 13u8) || b == 32u8
}

/// How many tabs, newlines and spaces open `src`; `None` when there are none.
pub fn trim_pos(src: &[u8]) -> (r: Option<usize>)
    ensures
        r == (if skip_collapsible(src@, 0) == 0 {
            None::<usize>
        } else {
            Some(skip_collapsible(src@, 0) as usize)
        }),
{
    let mut i: usize = 0;
    while i < src.len() && is_collapsible_byte(src[i])
        invariant
            i <= src@.len(),
            skip_collapsible(src@, 0) == skip_collapsible(src@, i as int),
        decreases src@.len() - i,
    {
        i = i + 1;
    }
    if i == 0 {
        None
    } else {
        Some(i)
    }
}

/// How many tabs, newlines and spaces close `src`; `None` when there are none.
pub fn trim_pos_end(src: &[u8]) -> (r: Option<usize>)
    ensures
        r == (if back_collapsible(src@, src@.len() as int) == src@.len() {
            None::<usize>
        } else {
            Some((src@.len() - back_collapsible(src@, src@.len() as int)) as usize)
        }),
{
    let mut j: usize = src.len();
    while j > 0 && is_collapsible_byte(src[j - 1])
        invariant
            j <= src@.len(),
            back_collapsible(src@, src@.len() as int) == back_collapsible(src@, j as int),
        decreases j,
    {
        j = j - 1;
    }
    if j == src.len() {
        None
    } else {
        Some(src.len() - j)
    }
}

/// The length of the whitespace character at index `i` of `src`: see `blank_len`.
pub fn blank_len_at(src: &[u8], i: usize) -> (r: usize)
    ensures
        r as int == blank_len(src@, i as int),
{
    let n = src.len();
    if i < n && is_blank_byte(src[i]) {
        1
    } else if i < n && n - i > 1 && src[i] == 0xC2u8 && (src[i + 1] == 0x85u8 || src[i + 1] == 0xA0u8) {
        2
    } else if i < n && n - i > 2 && ((src[i] == 0xE1u8 && src[i + 1] == 0x9Au8 && src[i + 2] == 0x80u8)
        || (src[i] == 0xE2u8 && src[i + 1] == 0x80u8 && ((0x80u8 <= src[i + 2] && src[i + 2] <= 0x8Au8)
        || src[i + 2] == 0xA8u8 || src[i + 2] == 0xA9u8 || src[i + 2] == 0xAFu8)) || (src[i] == 0xE2u8
        && src[i + 1] == 0x81u8 && src[i + 2] == 0x9Fu8) || (src[i] == 0xE3u8 && src[i + 1] == 0x80u8
        && src[i + 2] == 0x80u8)) {
        3
    } else {
        0
    }
}

/// Where the first character of `src` that is not whitespace starts, or its length.
pub fn skip_blank_from_start(src: &[u8]) -> (r: usize)
    ensures
        r as int == skip_blank(src@, 0),
{
    let mut i: usize = 0;
    loop
        invariant
            i <= src@.len(),
            skip_blank(src@, 0) == skip_blank(src@, i as int),
        decreases src@.len() - i,
    {
        let l = blank_len_at(src, i);
        if i >= src.len() || l == 0 {
            return i;
        }
        i = i + l;
    }
}

/// Whether `src` is made of whitespace characters only.
pub fn is_all_blank(src: &[u8]) -> (r: bool)
    ensures
        r == all_blank(src@),
{
    skip_blank_from_start(src) == src.len()
}

proof fn lemma_skip_collapsible_bounds(s: Seq<u8>, i: int)
    requires
        0 <= i <= s.len(),
    ensures
        i <= skip_collapsible(s, i) <= s.len(),
        forall|k: int| i <= k < skip_collapsible(s, i) ==> is_collapsible(#[trigger] s[k]),
        skip_collapsible(s, i) < s.len() ==> !is_collapsible(s[skip_collapsible(s, i)]),
    decreases s.len() - i,
{
    if i < s.len() && is_collapsible(s[i]) {
        lemma_skip_collapsible_bounds(s, i + 1);
    }
}

proof fn lemma_back_collapsible_bounds(s: Seq<u8>, j: int)
    requires
        0 <= j <= s.len(),
    ensures
        0 <= back_collapsible(s, j) <= j,
        forall|k: int| back_collapsible(s, j) <= k < j ==> is_collapsible(#[trigger] s[k]),
        back_collapsible(s, j) > 0 ==> !is_collapsible(s[back_collapsible(s, j) - 1]),
    decreases j,
{
    if 0 < j && is_collapsible(s[j - 1]) {
        lemma_back_collapsible_bounds(s, j - 1);
    }
}

proof fn lemma_collapsible_run_blank(s: Seq<u8>, i: int)
    requires
        0 <= i <= s.len(),
        forall|k: int| i <= k < s.len() ==> is_collapsible(#[trigger] s[k]),
    ensures
        skip_blank(s, i) == s.len(),
    decreases s.len() - i,
{
    if i < s.len() {
        assert(is_collapsible(s[i]));
        assert(blank_len(s, i) == 1);
        lemma_collapsible_run_blank(s, i + 1);
    }
}

/// Where text that is not all whitespace keeps its first and last non-collapsible byte.
proof fn lemma_collapse_bounds(s: Seq<u8>)
    requires
        !all_blank(s),
    ensures
        0 <= skip_collapsible(s, 0) < back_collapsible(s, s.len() as int) <= s.len(),
{
    lemma_skip_collapsible_bounds(s, 0);
    lemma_back_collapsible_bounds(s, s.len() as int);
    let a = skip_collapsible(s, 0);
    let b = back_collapsible(s, s.len() as int);
    if a >= b {
        assert forall|k: int| 0 <= k < s.len() implies is_collapsible(#[trigger] s[k]) by {
            if k < a {
            } else {
                assert(b <= k);
            }
        }
        lemma_collapsible_run_blank(s, 0);
    }
}

/// Skipping whitespace over a run of collapsible bytes lands where the run ends.
proof fn lemma_skip_run(x: Seq<u8>, i: int, a: int)
    requires
        0 <= i <= a <= x.len(),
        forall|k: int| 0 <= k < a ==> is_collapsible(#[trigger] x[k]),
    ensures
        skip_blank(x, i) == skip_blank(x, a),
    decreases a - i,
{
    if i < a {
        assert(is_collapsible(x[i]));
        assert(blank_len(x, i) == 1);
        lemma_skip_run(x, i + 1, a);
    }
}

/// Skipping whitespace in `x` from `off + j` is skipping it in `x[off..]` from `j`.
proof fn lemma_skip_shift(x: Seq<u8>, off: int, j: int)
    requires
        0 <= off <= x.len(),
        0 <= j <= x.len() - off,
    ensures
        skip_blank(x, off + j) == off + skip_blank(x.subrange(off, x.len() as int), j),
    decreases x.len() - off - j,
{
    let r = x.subrange(off, x.len() as int);
    if j < r.len() {
        assert(r[j] == x[off + j]);
        if j + 1 < r.len() {
            assert(r[j + 1] == x[off + j + 1]);
        }
        if j + 2 < r.len() {
            assert(r[j + 2] == x[off + j + 2]);
        }
        assert(blank_len(x, off + j) == blank_len(r, j));
        if blank_len(r, j) > 0 {
            lemma_skip_shift(x, off, j + blank_len(r, j));
        }
    }
}

/// A run of collapsible bytes after `m` changes nothing of how whitespace is skipped
/// inside `m`: no character spans the two.
proof fn lemma_skip_suffix(m: Seq<u8>, q: Seq<u8>, j: int)
    requires
        forall|k: int| 0 <= k < q.len() ==> is_collapsible(#[trigger] q[k]),
        0 <= j <= m.len(),
    ensures
        skip_blank(m + q, j) == if skip_blank(m, j) == m.len() {
            (m.len() + q.len()) as int
        } else {
            skip_blank(m, j)
        },
    decreases m.len() - j,
{
    let x = m + q;
    if j == m.len() {
        assert forall|k: int| m.len() <= k < x.len() implies is_collapsible(#[trigger] x[k]) by {
            assert(x[k] == q[k - m.len()]);
        }
        lemma_collapsible_run_blank(x, j);
    } else {
        assert(x[j] == m[j]);
        if j + 1 < x.len() {
            if j + 1 < m.len() {
                assert(x[j + 1] == m[j + 1]);
            } else {
                assert(x[j + 1] == q[0]);
                assert(is_collapsible(q[0]));
            }
        }
        if j + 2 < x.len() {
            if j + 2 < m.len() {
                assert(x[j + 2] == m[j + 2]);
            } else {
                assert(x[j + 2] == q[j + 2 - m.len()]);
                assert(is_collapsible(q[j + 2 - m.len()]));
            }
        }
        if j + 1 < m.len() {
            assert(x[j + 1] == m[j + 1]);
        }
        assert(blank_len(x, j) == blank_len(m, j));
        if blank_len(m, j) > 0 {
            lemma_skip_suffix(m, q, j + blank_len(m, j));
        }
    }
}

/// Text between two runs of collapsible bytes is all whitespace exactly when the
/// whole is.
proof fn lemma_blank_core(x: Seq<u8>, a: int, b: int)
    requires
        0 <= a <= b <= x.len(),
        forall|k: int| 0 <= k < a ==> is_collapsible(#[trigger] x[k]),
        forall|k: int| b <= k < x.len() ==> is_collapsible(#[trigger] x[k]),
    ensures
        all_blank(x) == all_blank(x.subrange(a, b)),
{
    lemma_skip_run(x, 0, a);
    lemma_skip_shift(x, a, 0);
    let m = x.subrange(a, b);
    let q = x.subrange(b, x.len() as int);
    assert(x.subrange(a, x.len() as int) =~= m + q);
    assert forall|k: int| 0 <= k < q.len() implies is_collapsible(#[trigger] q[k]) by {
        assert(q[k] == x[b + k]);
    }
    lemma_skip_suffix(m, q, 0);
    lemma_skip_blank_bounds(m, 0);
}

/// The text collapsed as a run of inline content: see `collapse`.
pub fn collapse_text(src: &[u8]) -> (r: Vec<u8>)
    ensures
        r@ == collapse(src@),
{
    let mut out: Vec<u8> = Vec::new();
    if src.len() == 0 {
        return out;
    }
    if is_all_blank(src) {
        out.push(32u8);
        assert(out@ =~= seq![32u8]);
        return out;
    }
    proof {
        lemma_collapse_bounds(src@);
    }
    let lead = trim_pos(src);
    let trail = trim_pos_end(src);
    let a: usize = match lead {
        Some(n) => n,
        None => 0,
    };
    let b: usize = match trail {
        Some(n) => src.len() - n,
        None => src.len(),
    };
    if a > 0 {
        out.push(32u8);
    }
    let mut i: usize = a;
    while i < b
        invariant
            a <= i <= b,
            b <= src@.len(),
            out@ =~= (if a > 0 { seq![32u8] } else { Seq::empty() }) + src@.subrange(a as int, i as int),
        decreases b - i,
    {
        out.push(src[i]);
        i = i + 1;
    }
    if b < src.len() {
        out.push(32u8);
    }
    out
}


proof fn lemma_line_end_bounds(s: Seq<u8>, i: int)
    requires
        0 <= i <= s.len(),
    ensures
        i <= line_end(s, i) <= s.len(),
        forall|k: int| i <= k < line_end(s, i) ==> #[trigger] s[k] != 10u8,
        line_end(s, i) < s.len() ==> s[line_end(s, i)] == 10u8,
    decreases s.len() - i,
{
    if i < s.len() && s[i] != 10u8 {
        lemma_line_end_bounds(s, i + 1);
    }
}

/// Appends the bytes `src[from..to]` to `out`.
pub fn push_range(out: &mut Vec<u8>, src: &[u8], from: usize, to: usize)
    requires
        from <= to <= src@.len(),
    ensures
        final(out)@ == old(out)@ + src@.subrange(from as int, to as int),
{
    let mut i: usize = from;
    while i < to
        invariant
            from <= i <= to,
            to <= src@.len(),
            out@ =~= old(out)@ + src@.subrange(from as int, i as int),
        decreases to - i,
    {
        out.push(src[i]);
        i = i + 1;
    }
}

/// Appends all of `src` to `out`.
pub fn push_all(out: &mut Vec<u8>, src: &[u8])
    ensures
        final(out)@ == old(out)@ + src@,
{
    push_range(out, src, 0, src.len());
    assert(src@.subrange(0, src@.len() as int) =~= src@);
}

/// Appends `n` copies of `b` to `out`.
pub fn push_repeat(out: &mut Vec<u8>, b: u8, n: usize)
    ensures
        final(out)@ == old(out)@ + Seq::new(n as nat, |_i: int| b),
{
    let mut i: usize = 0;
    while i < n
        invariant
            i <= n,
            out@ =~= old(out)@ + Seq::new(i as nat, |_k: int| b),
        decreases n - i,
    {
        out.push(b);
        i = i + 1;
    }
}

/// Appends the lines of `src` as `indent_lines` lays them out.
pub fn push_indented_lines(out: &mut Vec<u8>, src: &[u8], ind: &[u8])
    ensures
        final(out)@ == old(out)@ + indent_lines(src@, 0, ind@),
{
    let mut i: usize = 0;
    loop
        invariant
            i <= src@.len(),
            old(out)@ + indent_lines(src@, 0, ind@) == out@ + indent_lines(src@, i as int, ind@),
        decreases src@.len() - i,
    {
        proof {
            lemma_line_end_bounds(src@, i as int);
        }
        let mut j: usize = i;
        while j < src.len() && src[j] != 10u8
            invariant
                i <= j <= src@.len(),
                line_end(src@, i as int) == line_end(src@, j as int),
            decreases src@.len() - j,
        {
            j = j + 1;
        }
        let ghost before = out@;
        if !is_all_blank(vstd::slice::slice_subrange(src, i, j)) {
            push_all(out, ind);
            push_range(out, src, i, j);
            out.push(10u8);
        }
        proof {
            let line = src@.subrange(i as int, j as int);
            let head = if !all_blank(line) { ind@ + line + seq![10u8] } else { Seq::empty() };
            assert(out@ =~= before + head);
            if j < src@.len() {
                assert(indent_lines(src@, i as int, ind@) == head + indent_lines(src@, j + 1, ind@));
                assert(before + indent_lines(src@, i as int, ind@) =~= out@ + indent_lines(src@, j + 1, ind@));
            } else {
                assert(indent_lines(src@, i as int, ind@) == head);
                assert(before + indent_lines(src@, i as int, ind@) =~= out@);
            }
        }
        if j < src.len() {
            i = j + 1;
        } else {
            return;
        }
    }
}

proof fn lemma_skip_blank_bounds(s: Seq<u8>, i: int)
    requires
        0 <= i <= s.len(),
    ensures
        i <= skip_blank(s, i) <= s.len(),
    decreases s.len() - i,
{
    if i < s.len() && blank_len(s, i) > 0 {
        lemma_skip_blank_bounds(s, i + blank_len(s, i));
    }
}

proof fn lemma_content_end_bounds(s: Seq<u8>, i: int, e: int)
    requires
        0 <= e <= i <= s.len(),
    ensures
        e <= content_end(s, i, e) <= s.len(),
    decreases s.len() - i,
{
    if i < s.len() {
        if blank_len(s, i) > 0 {
            lemma_content_end_bounds(s, i + blank_len(s, i), e);
        } else {
            lemma_content_end_bounds(s, i + 1, i + 1);
        }
    }
}

/// The bounds of `src` once surrounding whitespace characters are dropped.
pub fn trim_blank_bounds(src: &[u8]) -> (r: (usize, usize))
    ensures
        r.0 <= r.1 <= src@.len(),
        src@.subrange(r.0 as int, r.1 as int) == trim_blank(src@),
{
    let a = skip_blank_from_start(src);
    proof {
        lemma_skip_blank_bounds(src@, 0);
        lemma_content_end_bounds(src@, a as int, a as int);
    }
    let mut i: usize = a;
    let mut e: usize = a;
    while i < src.len()
        invariant
            a <= e <= i <= src@.len(),
            content_end(src@, a as int, a as int) == content_end(src@, i as int, e as int),
        decreases src@.len() - i,
    {
        let l = blank_len_at(src, i);
        if l > 0 {
            i = i + l;
        } else {
            i = i + 1;
            e = i;
        }
    }
    (a, e)
}

/// Appends `src`, trimmed of surrounding whitespace, line by line under `ind`.
pub fn push_indented_block(out: &mut Vec<u8>, src: &[u8], ind: &[u8])
    ensures
        final(out)@ == old(out)@ + indented_block(src@, ind@),
{
    let (a, b) = trim_blank_bounds(src);
    let t = vstd::slice::slice_subrange(src, a, b);
    push_indented_lines(out, t, ind);
}

/// The 0-based line and column of byte offset `pos` of UTF-8 text `src`; `None`
/// when `pos` is past the end or inside a character.
pub fn position(src: &[u8], pos: usize) -> (r: Option<(usize, usize)>)
    ensures
        match r {
            None => spec_position(src@, pos as int) is None,
            Some((l, c)) => spec_position(src@, pos as int) == Some((l as nat, c as nat)),
        },
{
    if pos > src.len() || (pos < src.len() && src[pos] >= 128u8 && src[pos] < 192u8) {
        return None;
    }
    let mut lines: usize = 0;
    let mut cols: usize = 0;
    let mut i: usize = 0;
    while i < pos
        invariant
            i <= pos <= src@.len(),
            lines <= i,
            cols <= i,
            lines == count_lines(src@.subrange(0, i as int)),
            cols == count_cols(src@.subrange(0, i as int)),
        decreases pos - i,
    {
        assert(src@.subrange(0, i + 1).drop_last() =~= src@.subrange(0, i as int));
        if src[i] == 10u8 {
            lines = lines + 1;
            cols = 0;
        } else if !(src[i] >= 128u8 && src[i] < 192u8) {
            cols = cols + 1;
        }
        i = i + 1;
    }
    Some((lines, cols))
}

/// ASCII lower case of a byte.
pub open spec fn lower(b: u8) -> u8 {
    if 65u8 <= b <= 90u8 {
        (b + 32) as u8
    } else {
        b
    }
}

pub open spec fn lower_seq(s: Seq<u8>) -> Seq<u8> {
    s.map_values(|b: u8| lower(b))
}

/// `src` with ASCII upper-case letters turned to lower case.
pub fn to_lower(src: &[u8]) -> (r: Vec<u8>)
    ensures
        r@ == lower_seq(src@),
{
    let mut out: Vec<u8> = Vec::new();
    let mut i: usize = 0;
    while i < src.len()
        invariant
            i <= src@.len(),
            out@ =~= lower_seq(src@.subrange(0, i as int)),
        decreases src@.len() - i,
    {
        let b = src[i];
        let l: u8 = if 65u8 <= b && b <= 90u8 {
            b + 32
        } else {
            b
        };
        out.push(l);
        i = i + 1;
        assert(lower_seq(src@.subrange(0, i as int)) =~= lower_seq(src@.subrange(0, i - 1)).push(l));
    }
    assert(src@.subrange(0, src@.len() as int) =~= src@);
    out
}

/// Whether two byte strings are equal.
pub fn bytes_eq(a: &[u8], b: &[u8]) -> (r: bool)
    ensures
        r == (a@ == b@),
{
    if a.len() != b.len() {
        return false;
    }
    let mut i: usize = 0;
    while i < a.len()
        invariant
            i <= a@.len(),
            a@.len() == b@.len(),
            forall|k: int| 0 <= k < i ==> a@[k] == b@[k],
        decreases a@.len() - i,
    {
        if a[i] != b[i] {
            return false;
        }
        i = i + 1;
    }
    assert(a@ =~= b@);
    true
}

/// The bytes that end a tag's name: space, carriage return, newline, tab.
pub open spec fn ends_name(b: u8) -> bool {
    b == 32u8 || b == 13u8 || b == 10u8 || b == 9u8
}

/// The index of the first byte at or after `i` that ends a name, or the length.
pub open spec fn name_end(s: Seq<u8>, i: int) -> int
    decreases s.len() - i,
{
    if 0 <= i < s.len() && !ends_name(s[i]) {
        name_end(s, i + 1)
    } else {
        i
    }
}

/// The length of the name that opens a tag's content.
pub fn name_len(content: &[u8]) -> (r: usize)
    ensures
        r as int == name_end(content@, 0),
        r <= content@.len(),
{
    let mut i: usize = 0;
    while i < content.len() && !(content[i] == 32u8 || content[i] == 13u8 || content[i] == 10u8
        || content[i] == 9u8)
        invariant
            i <= content@.len(),
            name_end(content@, 0) == name_end(content@, i as int),
        decreases content@.len() - i,
    {
        i = i + 1;
    }
    i
}


/// Collapsing a text's whitespace a second time changes nothing.
pub proof fn collapse_idempotent(s: Seq<u8>)
    ensures
        collapse(collapse(s)) == collapse(s),
{
    let c = collapse(s);
    if s.len() == 0 {
        assert(c.len() == 0);
    } else if all_blank(s) {
        assert(c =~= seq![32u8]);
        assert(blank_len(c, 0) == 1);
        assert(skip_blank(c, 1) == 1);
        assert(all_blank(c));
    } else {
        lemma_collapse_bounds(s);
        lemma_skip_collapsible_bounds(s, 0);
        lemma_back_collapsible_bounds(s, s.len() as int);
        let a = skip_collapsible(s, 0);
        let b = back_collapsible(s, s.len() as int);
        let pre: Seq<u8> = if a > 0 { seq![32u8] } else { Seq::empty() };
        let mid = s.subrange(a, b);
        let post: Seq<u8> = if b < s.len() { seq![32u8] } else { Seq::empty() };
        assert(c == pre + mid + post);
        let p = pre.len() as int;
        let m = mid.len() as int;
        lemma_blank_core(s, a, b);
        assert forall|k: int| 0 <= k < p implies is_collapsible(#[trigger] c[k]) by {
            assert(c[k] == 32u8);
        }
        assert forall|k: int| p + m <= k < c.len() implies is_collapsible(#[trigger] c[k]) by {
            assert(c[k] == 32u8);
        }
        lemma_blank_core(c, p, p + m);
        assert(c.subrange(p, p + m) =~= mid);
        assert(!all_blank(c));
        assert(c[p] == s[a]);
        assert(!is_collapsible(c[p]));
        assert(skip_collapsible(c, p) == p);
        if p > 0 {
            assert(c[0] == 32u8);
            assert(skip_collapsible(c, 0) == skip_collapsible(c, 1));
        }
        assert(skip_collapsible(c, 0) == p);
        assert(c[p + m - 1] == s[b - 1]);
        assert(!is_collapsible(c[p + m - 1]));
        assert(back_collapsible(c, p + m) == p + m);
        if post.len() > 0 {
            assert(c[p + m] == 32u8);
            assert(back_collapsible(c, c.len() as int) == back_collapsible(c, p + m));
        }
        assert(back_collapsible(c, c.len() as int) == p + m);
        assert(collapse(c) =~= pre + mid + post);
    }
}

} // verus!
