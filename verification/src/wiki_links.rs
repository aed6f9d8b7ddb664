//! Wiki link parsing and rendering.
//!
//! Supports `[[Page Name]]` and `[[path|Display Text]]` syntax.

use vstd::prelude::*;
use crate::page::{spec_normalize, PagePath};
use crate::text::{
    byte_offset, byte_offsets, chars_equal, chars_of, lemma_lex_total, lemma_lex_transitive, lex_less,
    lex_lt, string_of,
};

verus! {

/// A wiki link found in content.
#[derive(Debug)]
pub struct WikiLink {
    /// The target page path
    pub path: PagePath,
    /// Optional display text (if different from path)
    pub display: Option<String>,
    /// Start position in the original text
    pub start: usize,
    /// End position in the original text
    pub end: usize,
}

/// The value of a wiki link: normalized path, optional display text and byte positions.
pub struct SpecWikiLink {
    pub path: Seq<char>,
    pub display: Option<Seq<char>>,
    pub start: int,
    pub end: int,
}

impl View for WikiLink {
    type V = SpecWikiLink;

    open spec fn view(&self) -> SpecWikiLink {
        SpecWikiLink {
            path: self.path.0@,
            display: match self.display {
                Some(d) => Some(d@),
                None => None,
            },
            start: self.start as int,
            end: self.end as int,
        }
    }
}

/// The views of a list of links.
pub open spec fn links_view(v: Seq<WikiLink>) -> Seq<SpecWikiLink> {
    v.map_values(|l: WikiLink| l@)
}

/// A `[[` found at character `start`; its text runs to `content_end`, where `]]`
/// follows when `closed` and the text ends otherwise.
pub struct SpecRawLink {
    pub start: int,
    pub content_end: int,
    pub closed: bool,
}

/// The first position at or after `k` where `]]` begins.
pub open spec fn find_close(s: Seq<char>, k: int) -> Option<int>
    decreases s.len() - k,
{
    if k < 0 || k + 1 >= s.len() {
        None
    } else if s[k] == ']' && s[k + 1] == ']' {
        Some(k)
    } else {
        find_close(s, k + 1)
    }
}

/// The `[[...]]` spans found scanning from character `i`, left to right: each `[[`
/// opens a span that ends at the next `]]` (or at the end of the text), scanning
/// resumes after it, and spans with no text inside are dropped.
pub open spec fn raw_links_from(s: Seq<char>, i: int) -> Seq<SpecRawLink>
    decreases s.len() - i,
{
    if i < 0 || i >= s.len() {
        Seq::empty()
    } else if s[i] == '[' && i + 1 < s.len() && s[i + 1] == '[' {
        match find_close(s, i + 2) {
            Some(j) => if i < j + 2 <= s.len() {
                let rest = raw_links_from(s, j + 2);
                if j > i + 2 {
                    seq![SpecRawLink { start: i, content_end: j, closed: true }] + rest
                } else {
                    rest
                }
            } else {
                Seq::empty()
            },
            None => if s.len() > i + 2 {
                seq![SpecRawLink { start: i, content_end: s.len() as int, closed: false }]
            } else {
                Seq::empty()
            },
        }
    } else {
        raw_links_from(s, i + 1)
    }
}

/// The text between the brackets of a span.
pub open spec fn raw_content(s: Seq<char>, r: SpecRawLink) -> Seq<char> {
    s.subrange(r.start + 2, r.content_end)
}

/// The first position at or after `k` holding `ch`.
pub open spec fn find_char_from(c: Seq<char>, ch: char, k: int) -> Option<int>
    decreases c.len() - k,
{
    if k < 0 || k >= c.len() {
        None
    } else if c[k] == ch {
        Some(k)
    } else {
        find_char_from(c, ch, k + 1)
    }
}

/// The link text before the first `'|'` (all of it when there is none).
pub open spec fn raw_path(s: Seq<char>, r: SpecRawLink) -> Seq<char> {
    let c = raw_content(s, r);
    match find_char_from(c, '|', 0) {
        Some(p) => c.take(p),
        None => c,
    }
}

/// The link text after the first `'|'`, if there is one.
pub open spec fn raw_display(s: Seq<char>, r: SpecRawLink) -> Option<Seq<char>> {
    let c = raw_content(s, r);
    match find_char_from(c, '|', 0) {
        Some(p) => Some(c.skip(p + 1)),
        None => None,
    }
}

/// The byte end of a span: just after `]]`, or one byte after the start of the
/// last character of an unclosed span.
pub open spec fn raw_end(s: Seq<char>, r: SpecRawLink) -> int {
    if r.closed {
        byte_offset(s, r.content_end) + 2
    } else {
        byte_offset(s, r.content_end - 1) + 1
    }
}

/// The wiki link a span denotes.
pub open spec fn link_of(s: Seq<char>, r: SpecRawLink) -> SpecWikiLink {
    SpecWikiLink {
        path: spec_normalize(raw_path(s, r)),
        display: raw_display(s, r),
        start: byte_offset(s, r.start),
        end: raw_end(s, r),
    }
}

/// All spans of a text.
pub open spec fn raw_links(s: Seq<char>) -> Seq<SpecRawLink> {
    raw_links_from(s, 0)
}

/// What `extract_wiki_links` returns.
pub open spec fn spec_extract_wiki_links(s: Seq<char>) -> Seq<SpecWikiLink> {
    raw_links(s).map_values(|r: SpecRawLink| link_of(s, r))
}

/// A span found by the scanner, by character positions.
struct RawLink {
    start: usize,
    content_end: usize,
    closed: bool,
}

impl View for RawLink {
    type V = SpecRawLink;

    closed spec fn view(&self) -> SpecRawLink {
        SpecRawLink {
            start: self.start as int,
            content_end: self.content_end as int,
            closed: self.closed,
        }
    }
}

spec fn raw_view(v: Seq<RawLink>) -> Seq<SpecRawLink> {
    v.map_values(|r: RawLink| r@)
}

proof fn lemma_find_close_bounds(s: Seq<char>, k: int)
    ensures
        find_close(s, k) matches Some(j) ==> k <= j && j + 1 < s.len() && s[j] == ']' && s[j + 1]
            == ']',
    decreases s.len() - k,
{
    if !(k < 0 || k + 1 >= s.len()) && !(s[k] == ']' && s[k + 1] == ']') {
        lemma_find_close_bounds(s, k + 1);
    }
}

/// Every span starts before its text ends and ends within the text.
pub proof fn lemma_raw_links_bounds(s: Seq<char>, i: int)
    ensures
        forall|m: int|
            0 <= m < raw_links_from(s, i).len() ==> {
                let r = #[trigger] raw_links_from(s, i)[m];
                &&& i <= r.start
                &&& r.start + 2 < r.content_end <= s.len()
                &&& r.closed ==> r.content_end + 2 <= s.len() && s[r.content_end] == ']' && s[
                    r.content_end + 1] == ']'
                &&& !r.closed ==> r.content_end == s.len()
            },
    decreases s.len() - i,
{
    if i < 0 || i >= s.len() {
    } else if s[i] == '[' && i + 1 < s.len() && s[i + 1] == '[' {
        lemma_find_close_bounds(s, i + 2);
        match find_close(s, i + 2) {
            Some(j) => {
                lemma_raw_links_bounds(s, j + 2);
                let rest = raw_links_from(s, j + 2);
                if j > i + 2 {
                    let x = SpecRawLink { start: i, content_end: j, closed: true };
                    assert forall|m: int| 0 <= m < raw_links_from(s, i).len() implies {
                        let r = #[trigger] raw_links_from(s, i)[m];
                        &&& i <= r.start
                        &&& r.start + 2 < r.content_end <= s.len()
                        &&& r.closed ==> r.content_end + 2 <= s.len() && s[r.content_end] == ']'
                            && s[r.content_end + 1] == ']'
                        &&& !r.closed ==> r.content_end == s.len()
                    } by {
                        if m > 0 {
                            assert(raw_links_from(s, i)[m] == rest[m - 1]);
                        }
                    }
                } else {
                    assert(raw_links_from(s, i) == rest);
                }
            },
            None => {
                if s.len() > i + 2 {
                    assert(raw_links_from(s, i) == seq![
                        SpecRawLink { start: i, content_end: s.len() as int, closed: false },
                    ]);
                } else {
                    assert(raw_links_from(s, i).len() == 0);
                }
            },
        }
    } else {
        lemma_raw_links_bounds(s, i + 1);
        assert(raw_links_from(s, i) == raw_links_from(s, i + 1));
    }
}

/// Finds the `[[...]]` spans of a text.
fn scan_links(cs: &Vec<char>) -> (res: Vec<RawLink>)
    ensures
        raw_view(res@) == raw_links(cs@),
{
    let ghost s = cs@;
    let n = cs.len();
    let mut out: Vec<RawLink> = Vec::new();
    let mut i: usize = 0;
    while i < n
        invariant
            n == s.len(),
            s == cs@,
            i <= n,
            raw_links(s) == raw_view(out@) + raw_links_from(s, i as int),
        decreases n - i,
    {
        if cs[i] == '[' && i + 1 < n && cs[i + 1] == '[' {
            let mut k: usize = i + 2;
            while k < n && !(k + 1 < n && cs[k] == ']' && cs[k + 1] == ']')
                invariant
                    n == s.len(),
                    s == cs@,
                    i + 2 <= k <= n,
                    find_close(s, i + 2) == find_close(s, k as int),
                decreases n - k,
            {
                k = k + 1;
            }
            let found = k < n;
            let ghost prev = out@;
            if found {
                assert(find_close(s, k as int) == Some(k as int));
                if k > i + 2 {
                    out.push(RawLink { start: i, content_end: k, closed: true });
                    proof {
                        assert(raw_view(out@) =~= raw_view(prev).push(
                            SpecRawLink { start: i as int, content_end: k as int, closed: true },
                        ));
                    }
                }
                i = k + 2;
            } else {
                assert(find_close(s, k as int) is None);
                if n > i + 2 {
                    out.push(RawLink { start: i, content_end: n, closed: false });
                    proof {
                        assert(raw_view(out@) =~= raw_view(prev).push(
                            SpecRawLink { start: i as int, content_end: n as int, closed: false },
                        ));
                    }
                }
                i = n;
            }
        } else {
            i = i + 1;
        }
    }
    out
}

fn find_char(c: &[char], ch: char) -> (res: Option<usize>)
    ensures
        match res {
            Some(p) => find_char_from(c@, ch, 0) == Some(p as int) && p < c@.len(),
            None => find_char_from(c@, ch, 0) is None,
        },
{
    let mut k: usize = 0;
    while k < c.len()
        invariant
            k <= c@.len(),
            find_char_from(c@, ch, 0) == find_char_from(c@, ch, k as int),
        decreases c@.len() - k,
    {
        if c[k] == ch {
            return Some(k);
        }
        k = k + 1;
    }
    None
}

fn sub_chars(cs: &Vec<char>, from: usize, to: usize) -> (res: Vec<char>)
    requires
        from <= to <= cs@.len(),
    ensures
        res@ == cs@.subrange(from as int, to as int),
{
    let mut res: Vec<char> = Vec::new();
    let mut k: usize = from;
    while k < to
        invariant
            from <= k <= to <= cs@.len(),
            res@ == cs@.subrange(from as int, k as int),
        decreases to - k,
    {
        res.push(cs[k]);
        k = k + 1;
    }
    res
}

/// Extract wiki links from markdown content.
///
/// Supports two formats:
/// - `[[Page Name]]` - links to "page name", displays "Page Name"
/// - `[[path/to/page|Display Text]]` - links to "path/to/page", displays "Display Text"
pub fn extract_wiki_links(content: &str) -> (res: Vec<WikiLink>)
    ensures
        links_view(res@) == spec_extract_wiki_links(content@),
{
    let cs = chars_of(content);
    let offsets = byte_offsets(content, cs.as_slice());
    let raws = scan_links(&cs);
    let ghost s = cs@;
    proof {
        lemma_raw_links_bounds(s, 0);
    }
    let mut links: Vec<WikiLink> = Vec::new();
    let mut m: usize = 0;
    while m < raws.len()
        invariant
            s == cs@,
            s == content@,
            raw_view(raws@) == raw_links(s),
            offsets@.len() == s.len() + 1,
            forall|i: int| 0 <= i <= s.len() ==> #[trigger] offsets@[i] == byte_offset(s, i),
            forall|q: int|
                0 <= q < raw_links(s).len() ==> {
                    let r = #[trigger] raw_links(s)[q];
                    &&& 0 <= r.start
                    &&& r.start + 2 < r.content_end <= s.len()
                    &&& r.closed ==> r.content_end + 2 <= s.len() && s[r.content_end] == ']'
                        && s[r.content_end + 1] == ']'
                },
            m <= raws@.len(),
            links_view(links@) == raw_links(s).take(m as int).map_values(
                |r: SpecRawLink| link_of(s, r),
            ),
        decreases raws@.len() - m,
    {
        let r = &raws[m];
        proof {
            assert(raw_links(s)[m as int] == r@);
        }
        let text = sub_chars(&cs, r.start + 2, r.content_end);
        let (path_chars, display) = match find_char(text.as_slice(), '|') {
            Some(p) => {
                let before = sub_chars(&text, 0, p);
                let after = sub_chars(&text, p + 1, text.len());
                (before, Some(string_of(after.as_slice())))
            },
            None => (text, None),
        };
        let path_str = string_of(path_chars.as_slice());
        let path = PagePath::normalize(path_str.as_str());
        let start = offsets[r.start];
        let end = if r.closed {
            let e = offsets[r.content_end];
            proof {
                crate::text::lemma_byte_offset_step(s, r.content_end as int);
                crate::text::lemma_byte_offset_step(s, r.content_end + 1);
                assert(s[r.content_end as int] == ']');
                assert(s[r.content_end + 1] == ']');
                assert(offsets@[r.content_end + 2] == byte_offset(s, r.content_end + 2));
            }
            e + 2
        } else {
            let e = offsets[r.content_end - 1];
            proof {
                crate::text::lemma_byte_offset_step(s, r.content_end - 1);
                assert(offsets@[r.content_end as int] == byte_offset(s, r.content_end as int));
            }
            e + 1
        };
        let link = WikiLink { path, display, start, end };
        let ghost prev = links@;
        links.push(link);
        proof {
            assert(raw_links(s).take(m + 1) == raw_links(s).take(m as int).push(r@));
            assert(link@ == link_of(s, r@));
            assert(links_view(links@) =~= links_view(prev).push(link@));
        }
        m = m + 1;
    }
    proof {
        assert(raw_links(s).take(raws@.len() as int) == raw_links(s));
    }
    links
}

} // verus!

verus! {

/// The escaped form of one character.
pub open spec fn escape_char(c: char) -> Seq<char> {
    if c == '&' {
        seq!['&', 'a', 'm', 'p', ';']
    } else if c == '<' {
        seq!['&', 'l', 't', ';']
    } else if c == '>' {
        seq!['&', 'g', 't', ';']
    } else if c == '"' {
        seq!['&', 'q', 'u', 'o', 't', ';']
    } else {
        seq![c]
    }
}

/// `&`, `<`, `>` and `"` replaced by their HTML entities.
pub open spec fn spec_html_escape(s: Seq<char>) -> Seq<char>
    decreases s.len(),
{
    if s.len() == 0 {
        Seq::empty()
    } else {
        spec_html_escape(s.drop_last()) + escape_char(s.last())
    }
}

fn push_escaped(out: &mut String, c: char)
    ensures
        final(out)@ == old(out)@ + escape_char(c),
{
    if c == '&' {
        proof {
            reveal_strlit("&amp;");
        }
        crate::text::push_str(out, "&amp;");
    } else if c == '<' {
        proof {
            reveal_strlit("&lt;");
        }
        crate::text::push_str(out, "&lt;");
    } else if c == '>' {
        proof {
            reveal_strlit("&gt;");
        }
        crate::text::push_str(out, "&gt;");
    } else if c == '"' {
        proof {
            reveal_strlit("&quot;");
        }
        crate::text::push_str(out, "&quot;");
    } else {
        crate::text::push_char(out, c);
    }
}

fn push_escaped_chars(out: &mut String, cs: &[char])
    ensures
        final(out)@ == old(out)@ + spec_html_escape(cs@),
{
    let mut i: usize = 0;
    while i < cs.len()
        invariant
            i <= cs@.len(),
            out@ == old(out)@ + spec_html_escape(cs@.take(i as int)),
        decreases cs@.len() - i,
    {
        let ghost before = out@;
        push_escaped(out, cs[i]);
        proof {
            let t = cs@.take(i + 1);
            assert(t.drop_last() == cs@.take(i as int));
            assert(t.last() == cs@[i as int]);
            assert(out@ =~= old(out)@ + spec_html_escape(t));
        }
        i = i + 1;
    }
    proof {
        assert(cs@.take(cs@.len() as int) == cs@);
    }
}

/// Basic HTML escaping for display text.
pub fn html_escape(s: &str) -> (res: String)
    ensures
        res@ == spec_html_escape(s@),
{
    let cs = chars_of(s);
    let mut out = String::new();
    push_escaped_chars(&mut out, cs.as_slice());
    out
}

/// Escaped text holds no `<`, `>` or `"`.
pub proof fn law_escaped_text_has_no_markup(s: Seq<char>)
    ensures
        forall|i: int|
            0 <= i < spec_html_escape(s).len() ==> {
                let c = #[trigger] spec_html_escape(s)[i];
                c != '<' && c != '>' && c != '"'
            },
    decreases s.len(),
{
    if s.len() > 0 {
        law_escaped_text_has_no_markup(s.drop_last());
        let a = spec_html_escape(s.drop_last());
        let b = escape_char(s.last());
        assert forall|i: int| 0 <= i < (a + b).len() implies {
            let c = #[trigger] (a + b)[i];
            c != '<' && c != '>' && c != '"'
        } by {
            if i >= a.len() {
                assert((a + b)[i] == b[i - a.len()]);
            } else {
                assert((a + b)[i] == a[i]);
            }
        }
    }
}

/// The text shown for a span: after `'|'` when there is one; otherwise all the text
/// of a closed span, and of an unclosed one all but its last two characters.
pub open spec fn raw_display_text(s: Seq<char>, r: SpecRawLink) -> Seq<char> {
    let c = raw_content(s, r);
    match raw_display(s, r) {
        Some(d) => d,
        None => if r.closed {
            c
        } else {
            c.take(c.len() - 2)
        },
    }
}

/// `<a href="#/PATH">ESCAPED TEXT</a>`.
pub open spec fn anchor_html(path: Seq<char>, text: Seq<char>) -> Seq<char> {
    seq!['<', 'a', ' ', 'h', 'r', 'e', 'f', '=', '"', '#', '/'] + path + seq!['"', '>']
        + spec_html_escape(text) + seq!['<', '/', 'a', '>']
}

/// Where the text after a span resumes.
pub open spec fn raw_next(s: Seq<char>, r: SpecRawLink) -> int {
    if r.closed {
        r.content_end + 2
    } else {
        s.len() as int
    }
}

/// The text from `from` on, each span of `rs` replaced by its anchor.
pub open spec fn render_spans(s: Seq<char>, rs: Seq<SpecRawLink>, from: int) -> Seq<char>
    decreases rs.len(),
{
    if rs.len() == 0 {
        s.subrange(from, s.len() as int)
    } else {
        let r = rs[0];
        s.subrange(from, r.start) + anchor_html(spec_normalize(raw_path(s, r)), raw_display_text(s, r))
            + render_spans(s, rs.drop_first(), raw_next(s, r))
    }
}

/// What `render_wiki_links` returns.
pub open spec fn spec_render_wiki_links(s: Seq<char>) -> Seq<char> {
    if raw_links(s).len() == 0 {
        s
    } else {
        render_spans(s, raw_links(s), 0)
    }
}

/// The inputs on which rendering stays on character boundaries: an unclosed span
/// (only the last span can be one) ends in a one-byte character, and without `'|'`
/// has at least two characters, the second to last of one byte.
pub open spec fn renders_on_char_boundaries(s: Seq<char>) -> bool {
    forall|m: int|
        0 <= m < raw_links(s).len() && !(#[trigger] raw_links(s)[m]).closed ==> {
            let r = raw_links(s)[m];
            let c = raw_content(s, r);
            &&& (c.last() as u32) < 0x80
            &&& raw_display(s, r) is None ==> c.len() >= 2 && (c[c.len() - 2] as u32) < 0x80
        }
}

proof fn lemma_raw_links_ordered(s: Seq<char>, i: int)
    ensures
        forall|m: int|
            0 <= m < raw_links_from(s, i).len() - 1 ==> raw_next(s, #[trigger] raw_links_from(s, i)[m])
                <= raw_links_from(s, i)[m + 1].start,
    decreases s.len() - i,
{
    if i < 0 || i >= s.len() {
    } else if s[i] == '[' && i + 1 < s.len() && s[i + 1] == '[' {
        lemma_find_close_bounds(s, i + 2);
        match find_close(s, i + 2) {
            Some(j) => {
                lemma_raw_links_ordered(s, j + 2);
                lemma_raw_links_bounds(s, j + 2);
                let rest = raw_links_from(s, j + 2);
                if j > i + 2 {
                    assert forall|m: int| 0 <= m < raw_links_from(s, i).len() - 1 implies raw_next(
                        s,
                        #[trigger] raw_links_from(s, i)[m],
                    ) <= raw_links_from(s, i)[m + 1].start by {
                        assert(raw_links_from(s, i)[m + 1] == rest[m]);
                        if m > 0 {
                            assert(raw_links_from(s, i)[m] == rest[m - 1]);
                        }
                    }
                } else {
                    assert(raw_links_from(s, i) == rest);
                }
            },
            None => {},
        }
    } else {
        lemma_raw_links_ordered(s, i + 1);
        assert(raw_links_from(s, i) == raw_links_from(s, i + 1));
    }
}

fn push_range(out: &mut String, cs: &Vec<char>, from: usize, to: usize)
    requires
        from <= to <= cs@.len(),
    ensures
        final(out)@ == old(out)@ + cs@.subrange(from as int, to as int),
{
    let part = sub_chars(cs, from, to);
    crate::text::push_chars(out, part.as_slice());
}

fn push_anchor(out: &mut String, cs: &Vec<char>, r: &RawLink)
    requires
        0 <= r.start,
        r.start + 2 < r.content_end <= cs@.len(),
        !r.closed ==> {
            let c = raw_content(cs@, r@);
            raw_display(cs@, r@) is None ==> c.len() >= 2
        },
    ensures
        final(out)@ == old(out)@ + anchor_html(
            spec_normalize(raw_path(cs@, r@)),
            raw_display_text(cs@, r@),
        ),
{
    let ghost s = cs@;
    let text = sub_chars(cs, r.start + 2, r.content_end);
    let (path_chars, shown) = match find_char(text.as_slice(), '|') {
        Some(p) => {
            let before_pipe = sub_chars(&text, 0, p);
            let after_pipe = sub_chars(&text, p + 1, text.len());
            (before_pipe, after_pipe)
        },
        None => {
            if r.closed {
                let all = sub_chars(&text, 0, text.len());
                (text, all)
            } else {
                let cut = sub_chars(&text, 0, text.len() - 2);
                (text, cut)
            }
        },
    };
    let path_str = string_of(path_chars.as_slice());
    let path = PagePath::normalize(path_str.as_str());
    proof {
        reveal_strlit("<a href=\"#/");
        reveal_strlit("\">");
        reveal_strlit("</a>");
    }
    crate::text::push_str(out, "<a href=\"#/");
    crate::text::push_str(out, path.as_str());
    crate::text::push_str(out, "\">");
    push_escaped_chars(out, shown.as_slice());
    crate::text::push_str(out, "</a>");
    proof {
        assert(path_chars@ == raw_path(s, r@));
        assert(shown@ == raw_display_text(s, r@));
        assert(out@ =~= old(out)@ + anchor_html(
            spec_normalize(raw_path(s, r@)),
            raw_display_text(s, r@),
        ));
    }
}

proof fn lemma_render_spans_skip(s: Seq<char>, rs: Seq<SpecRawLink>, m: int, from: int)
    requires
        0 <= m < rs.len(),
    ensures
        render_spans(s, rs.skip(m), from) == s.subrange(from, rs[m].start) + anchor_html(
            spec_normalize(raw_path(s, rs[m])),
            raw_display_text(s, rs[m]),
        ) + render_spans(s, rs.skip(m + 1), raw_next(s, rs[m])),
{
    assert(rs.skip(m)[0] == rs[m]);
    assert(rs.skip(m).drop_first() =~= rs.skip(m + 1));
}

/// Render wiki links to HTML.
///
/// Converts `[[Page Name]]` to `<a href="#/page name">Page Name</a>`
#[verifier::rlimit(100)]
#[verifier::spinoff_prover]
pub fn render_wiki_links(content: &str) -> (res: String)
    requires
        renders_on_char_boundaries(content@),
    ensures
        res@ == spec_render_wiki_links(content@),
{
    let cs = chars_of(content);
    let raws = scan_links(&cs);
    if raws.len() == 0 {
        return crate::text::string_from(content);
    }
    let ghost s = cs@;
    let ghost rs = raw_links(s);
    proof {
        lemma_raw_links_bounds(s, 0);
        lemma_raw_links_ordered(s, 0);
        assert(rs.skip(0) == rs);
    }
    let ghost target = render_spans(s, rs, 0);
    proof {
        assert(spec_render_wiki_links(s) == target);
    }
    let mut out = String::new();
    let mut last: usize = 0;
    let mut m: usize = 0;
    while m < raws.len()
        invariant
            s == cs@,
            s == content@,
            rs == raw_links(s),
            raw_view(raws@) == rs,
            renders_on_char_boundaries(s),
            forall|q: int|
                0 <= q < rs.len() ==> {
                    let r = #[trigger] rs[q];
                    &&& 0 <= r.start
                    &&& r.start + 2 < r.content_end <= s.len()
                    &&& r.closed ==> r.content_end + 2 <= s.len()
                    &&& !r.closed ==> r.content_end == s.len()
                },
            forall|q: int| 0 <= q < rs.len() - 1 ==> raw_next(s, #[trigger] rs[q]) <= rs[q + 1].start,
            m <= rs.len(),
            last <= s.len(),
            m < rs.len() ==> last <= rs[m as int].start,
            target == render_spans(s, rs, 0),
            target == out@ + render_spans(s, rs.skip(m as int), last as int),
        decreases rs.len() - m,
    {
        let r = &raws[m];
        proof {
            assert(rs[m as int] == r@);
            lemma_render_spans_skip(s, rs, m as int, last as int);
        }
        let ghost before = out@;
        push_range(&mut out, &cs, last, r.start);
        push_anchor(&mut out, &cs, r);
        proof {
            let piece = s.subrange(last as int, r.start as int) + anchor_html(
                spec_normalize(raw_path(s, r@)),
                raw_display_text(s, r@),
            );
            assert(out@ =~= before + piece);
            let rest = render_spans(s, rs.skip(m + 1), raw_next(s, r@));
            assert(before + (piece + rest) =~= out@ + rest);
        }
        let len = cs.len();
        proof {
            let rr = rs[m as int];
            assert(rr.closed ==> rr.content_end + 2 <= len);
        }
        last = if r.closed {
            r.content_end + 2
        } else {
            cs.len()
        };
        m = m + 1;
    }
    push_range(&mut out, &cs, last, cs.len());
    out
}

} // verus!

verus! {

/// Each element comes before the next in the order of strings (so none repeats).
pub open spec fn strictly_sorted(v: Seq<Seq<char>>) -> bool {
    forall|i: int, j: int| 0 <= i < j < v.len() ==> lex_lt(#[trigger] v[i], #[trigger] v[j])
}

/// The text of each path.
pub open spec fn path_views(v: Seq<PagePath>) -> Seq<Seq<char>> {
    v.map_values(|p: PagePath| p.0@)
}

/// The paths of the links of a text, with repetitions, in order.
pub open spec fn linked_paths(s: Seq<char>) -> Seq<Seq<char>> {
    spec_extract_wiki_links(s).map_values(|l: SpecWikiLink| l.path)
}

/// Adds `x` to a strictly sorted list of paths unless it is there already.
fn insert_sorted_unique(out: &mut Vec<PagePath>, keys: &mut Vec<Vec<char>>, x: Vec<char>)
    requires
        old(keys)@.len() == old(out)@.len(),
        forall|i: int| 0 <= i < old(keys)@.len() ==> (#[trigger] old(keys)@[i])@ == old(out)@[i].0@,
        strictly_sorted(path_views(old(out)@)),
    ensures
        final(keys)@.len() == final(out)@.len(),
        forall|i: int| 0 <= i < final(keys)@.len() ==> (#[trigger] final(keys)@[i])@ == final(out)@[i].0@,
        strictly_sorted(path_views(final(out)@)),
        forall|y: Seq<char>|
            path_views(final(out)@).contains(y) <==> (path_views(old(out)@).contains(y) || y == x@),
{
    let ghost pv = path_views(out@);
    let mut p: usize = 0;
    while p < keys.len() && lex_less(keys[p].as_slice(), x.as_slice())
        invariant
            keys@.len() == out@.len(),
            pv == path_views(out@),
            forall|i: int| 0 <= i < keys@.len() ==> (#[trigger] keys@[i])@ == out@[i].0@,
            p <= keys@.len(),
            forall|i: int| 0 <= i < p ==> lex_lt(#[trigger] pv[i], x@),
        decreases keys@.len() - p,
    {
        p = p + 1;
    }
    if p < keys.len() && chars_equal(keys[p].as_slice(), x.as_slice()) {
        proof {
            assert(pv[p as int] == x@);
        }
        return;
    }
    proof {
        if p < keys@.len() {
            assert(pv[p as int] == keys@[p as int]@);
            lemma_lex_total(pv[p as int], x@);
        }
    }
    let path = PagePath(string_of(x.as_slice()));
    keys.insert(p, x);
    out.insert(p, path);
    proof {
        let nv = path_views(out@);
        assert(nv =~= pv.insert(p as int, x@));
        assert forall|i: int, j: int| 0 <= i < j < nv.len() implies lex_lt(
            #[trigger] nv[i],
            #[trigger] nv[j],
        ) by {
            if j < p {
                assert(lex_lt(pv[i], pv[j]));
            } else if j == p {
            } else if i < p {
                assert(nv[j] == pv[j - 1]);
                if j - 1 > p {
                    assert(lex_lt(pv[p as int], pv[j - 1]));
                    lemma_lex_transitive(x@, pv[p as int], pv[j - 1]);
                }
                lemma_lex_transitive(pv[i], x@, pv[j - 1]);
            } else if i == p {
                assert(nv[j] == pv[j - 1]);
                if j - 1 > p {
                    assert(lex_lt(pv[p as int], pv[j - 1]));
                    lemma_lex_transitive(x@, pv[p as int], pv[j - 1]);
                }
            } else {
                assert(lex_lt(pv[i - 1], pv[j - 1]));
            }
        }
        assert forall|y: Seq<char>| nv.contains(y) <==> (pv.contains(y) || y == x@) by {
            if nv.contains(y) {
                let k = choose|k: int| 0 <= k < nv.len() && nv[k] == y;
                if k < p {
                    assert(pv[k] == y);
                } else if k > p {
                    assert(pv[k - 1] == y);
                }
            }
            if pv.contains(y) {
                let k = choose|k: int| 0 <= k < pv.len() && pv[k] == y;
                if k < p {
                    assert(nv[k] == y);
                } else {
                    assert(nv[k + 1] == y);
                }
            }
            if y == x@ {
                assert(nv[p as int] == y);
            }
        }
    }
}

/// Get all unique page paths linked from content, in the order of strings.
pub fn get_linked_pages(content: &str) -> (res: Vec<PagePath>)
    ensures
        strictly_sorted(path_views(res@)),
        forall|y: Seq<char>| path_views(res@).contains(y) <==> linked_paths(content@).contains(y),
{
    let links = extract_wiki_links(content);
    let ghost lp = linked_paths(content@);
    let mut out: Vec<PagePath> = Vec::new();
    let mut keys: Vec<Vec<char>> = Vec::new();
    let mut m: usize = 0;
    while m < links.len()
        invariant
            links_view(links@) == spec_extract_wiki_links(content@),
            lp == linked_paths(content@),
            m <= links@.len(),
            keys@.len() == out@.len(),
            forall|i: int| 0 <= i < keys@.len() ==> (#[trigger] keys@[i])@ == out@[i].0@,
            strictly_sorted(path_views(out@)),
            forall|y: Seq<char>| path_views(out@).contains(y) <==> lp.take(m as int).contains(y),
        decreases links@.len() - m,
    {
        let x = chars_of(links[m].path.as_str());
        proof {
            assert(lp[m as int] == links@[m as int].path.0@);
        }
        let ghost prev = lp.take(m as int);
        let ghost old_pv = path_views(out@);
        let ghost xv = x@;
        insert_sorted_unique(&mut out, &mut keys, x);
        proof {
            assert(xv == lp[m as int]);
            assert(lp.take(m + 1) == prev.push(lp[m as int]));
            assert forall|y: Seq<char>| lp.take(m + 1).contains(y) <==> (prev.contains(y) || y
                == lp[m as int]) by {
                let t = lp.take(m + 1);
                if t.contains(y) {
                    let k = choose|k: int| 0 <= k < t.len() && t[k] == y;
                    if k < m {
                        assert(prev[k] == y);
                    }
                }
                if prev.contains(y) {
                    let k = choose|k: int| 0 <= k < prev.len() && prev[k] == y;
                    assert(t[k] == y);
                }
                if y == lp[m as int] {
                    assert(t[m as int] == y);
                }
            }
            assert forall|y: Seq<char>| path_views(out@).contains(y) <==> lp.take(m + 1).contains(
                y,
            ) by {
                assert(path_views(out@).contains(y) <==> (old_pv.contains(y) || y == xv));
                assert(old_pv.contains(y) <==> prev.contains(y));
            }
        }
        m = m + 1;
    }
    proof {
        assert(lp.take(links@.len() as int) == lp);
    }
    out
}

} // verus!

verus! {

proof fn lemma_raw_links_open(s: Seq<char>, i: int)
    ensures
        forall|m: int|
            0 <= m < raw_links_from(s, i).len() ==> s[(#[trigger] raw_links_from(s, i)[m]).start]
                == '[' && s[raw_links_from(s, i)[m].start + 1] == '[',
    decreases s.len() - i,
{
    if i < 0 || i >= s.len() {
    } else if s[i] == '[' && i + 1 < s.len() && s[i + 1] == '[' {
        lemma_find_close_bounds(s, i + 2);
        match find_close(s, i + 2) {
            Some(j) => {
                lemma_raw_links_open(s, j + 2);
                let rest = raw_links_from(s, j + 2);
                if j > i + 2 {
                    assert forall|m: int| 0 <= m < raw_links_from(s, i).len() implies s[(
                    #[trigger] raw_links_from(s, i)[m]).start] == '[' && s[raw_links_from(
                        s,
                        i,
                    )[m].start + 1] == '[' by {
                        if m > 0 {
                            assert(raw_links_from(s, i)[m] == rest[m - 1]);
                        }
                    }
                } else {
                    assert(raw_links_from(s, i) == rest);
                }
            },
            None => {},
        }
    } else {
        lemma_raw_links_open(s, i + 1);
        assert(raw_links_from(s, i) == raw_links_from(s, i + 1));
    }
}

proof fn lemma_width_positive(c: char)
    ensures
        1 <= crate::text::utf8_width(c) <= 4,
{
    vstd::utf8::char_is_scalar(c);
}

proof fn lemma_byte_offset_grows(s: Seq<char>, i: int, j: int)
    requires
        0 <= i <= j <= s.len(),
    ensures
        byte_offset(s, j) >= byte_offset(s, i) + (j - i),
    decreases j - i,
{
    if i < j {
        lemma_byte_offset_grows(s, i, j - 1);
        crate::text::lemma_byte_offset_step(s, j - 1);
        lemma_width_positive(s[j - 1]);
    }
}

/// The structure of extracted links: one per `[[` span, in order of the text, each
/// starting at `[[`, at least three bytes long and within the text, not overlapping
/// the next; a closed span ends at `]]`; the path is the normalized text before the
/// first `'|'`, the display text what follows it.
pub proof fn law_extracted_links_structure(s: Seq<char>)
    ensures
        ({
            let ls = spec_extract_wiki_links(s);
            let rs = raw_links(s);
            &&& ls.len() == rs.len()
            &&& forall|m: int|
                0 <= m < rs.len() ==> {
                    let r = #[trigger] rs[m];
                    &&& s[r.start] == '[' && s[r.start + 1] == '['
                    &&& r.start + 2 < r.content_end <= s.len()
                    &&& r.closed ==> s[r.content_end] == ']' && s[r.content_end + 1] == ']'
                    &&& ls[m].start == byte_offset(s, r.start)
                    &&& ls[m].start + 3 <= ls[m].end <= vstd::utf8::encode_utf8(s).len()
                    &&& ls[m].path == spec_normalize(raw_path(s, r))
                    &&& ls[m].display == raw_display(s, r)
                }
            &&& forall|m: int| 0 <= m < rs.len() - 1 ==> (#[trigger] ls[m]).end <= ls[m + 1].start
        }),
{
    let ls = spec_extract_wiki_links(s);
    let rs = raw_links(s);
    lemma_raw_links_bounds(s, 0);
    lemma_raw_links_open(s, 0);
    lemma_raw_links_ordered(s, 0);
    crate::text::lemma_byte_offset_bounded(s, s.len() as int);
    assert forall|m: int| 0 <= m < rs.len() implies {
        let r = #[trigger] rs[m];
        &&& ls[m].start + 3 <= ls[m].end <= vstd::utf8::encode_utf8(s).len()
    } by {
        let r = rs[m];
        assert(ls[m] == link_of(s, r));
        if r.closed {
            lemma_byte_offset_grows(s, r.start, r.content_end);
            lemma_byte_offset_grows(s, r.content_end, r.content_end + 2);
            lemma_byte_offset_grows(s, r.content_end + 2, s.len() as int);
        } else {
            lemma_byte_offset_grows(s, r.start, r.content_end - 1);
            crate::text::lemma_byte_offset_step(s, r.content_end - 1);
            lemma_width_positive(s[r.content_end - 1]);
        }
    }
    assert forall|m: int| 0 <= m < rs.len() - 1 implies (#[trigger] ls[m]).end <= ls[m + 1].start by {
        let r = rs[m];
        let q = rs[m + 1];
        assert(ls[m] == link_of(s, r));
        assert(ls[m + 1] == link_of(s, q));
        assert(raw_next(s, r) <= q.start);
        if r.closed {
            lemma_byte_offset_grows(s, r.content_end, r.content_end + 2);
            lemma_byte_offset_grows(s, r.content_end + 2, q.start);
        }
    }
}

/// Text in which `[[` never occurs renders as itself.
pub proof fn law_render_without_links_is_identity(s: Seq<char>)
    requires
        forall|i: int| 0 <= i < s.len() - 1 ==> !(#[trigger] s[i] == '[' && s[i + 1] == '['),
    ensures
        raw_links(s).len() == 0,
        spec_render_wiki_links(s) == s,
{
    lemma_raw_links_bounds(s, 0);
    lemma_raw_links_open(s, 0);
    if raw_links(s).len() > 0 {
        let r = raw_links(s)[0];
        assert(s[r.start] == '[' && s[r.start + 1] == '[');
        assert(false);
    }
}

/// Whether `piece` occurs in `out` at position `i`.
pub open spec fn occurs_at(out: Seq<char>, piece: Seq<char>, i: int) -> bool {
    0 <= i && i + piece.len() <= out.len() && out.subrange(i, i + piece.len()) == piece
}

/// Whether `piece` occurs somewhere in `out`.
pub open spec fn occurs_in(out: Seq<char>, piece: Seq<char>) -> bool {
    exists|i: int| #[trigger] occurs_at(out, piece, i)
}

/// Where the text before the `m`-th span resumes: the start, or after the span before.
pub open spec fn span_from(s: Seq<char>, rs: Seq<SpecRawLink>, from: int, m: int) -> int {
    if m == 0 {
        from
    } else {
        raw_next(s, rs[m - 1])
    }
}

/// The `m`-th span's anchor, preceded by the text since the previous span.
pub open spec fn span_piece(s: Seq<char>, rs: Seq<SpecRawLink>, from: int, m: int) -> Seq<char> {
    s.subrange(span_from(s, rs, from, m), rs[m].start) + anchor_html(
        spec_normalize(raw_path(s, rs[m])),
        raw_display_text(s, rs[m]),
    )
}

/// Where the text after the last span resumes.
pub open spec fn spans_end(s: Seq<char>, rs: Seq<SpecRawLink>, from: int) -> int {
    if rs.len() == 0 {
        from
    } else {
        raw_next(s, rs.last())
    }
}

proof fn lemma_render_spans_tail(s: Seq<char>, rs: Seq<SpecRawLink>, from: int)
    ensures
        ({
            let out = render_spans(s, rs, from);
            let t = s.subrange(spans_end(s, rs, from), s.len() as int);
            &&& t.len() <= out.len()
            &&& out.subrange(out.len() - t.len(), out.len() as int) == t
        }),
    decreases rs.len(),
{
    let out = render_spans(s, rs, from);
    if rs.len() == 0 {
        assert(out.subrange(0, out.len() as int) =~= out);
    } else {
        let rest = rs.drop_first();
        let nx = raw_next(s, rs[0]);
        lemma_render_spans_tail(s, rest, nx);
        let tail = render_spans(s, rest, nx);
        assert(spans_end(s, rest, nx) == spans_end(s, rs, from)) by {
            if rest.len() > 0 {
                assert(rest.last() == rs.last());
            }
        }
        let t = s.subrange(spans_end(s, rs, from), s.len() as int);
        let head = s.subrange(from, rs[0].start) + anchor_html(
            spec_normalize(raw_path(s, rs[0])),
            raw_display_text(s, rs[0]),
        );
        assert(out == head + tail);
        assert(out.subrange(out.len() - t.len(), out.len() as int) =~= tail.subrange(
            tail.len() - t.len(),
            tail.len() as int,
        ));
    }
}

proof fn lemma_render_spans_anchors(s: Seq<char>, rs: Seq<SpecRawLink>, from: int)
    ensures
        forall|m: int|
            0 <= m < rs.len() ==> occurs_in(
                render_spans(s, rs, from),
                #[trigger] span_piece(s, rs, from, m),
            ),
    decreases rs.len(),
{
    if rs.len() > 0 {
        let r = rs[0];
        let rest = rs.drop_first();
        let nx = raw_next(s, r);
        lemma_render_spans_anchors(s, rest, nx);
        let a = s.subrange(from, r.start);
        let anc = anchor_html(spec_normalize(raw_path(s, r)), raw_display_text(s, r));
        let tail = render_spans(s, rest, nx);
        let out = render_spans(s, rs, from);
        assert(out == a + anc + tail);
        assert forall|m: int| 0 <= m < rs.len() implies occurs_in(
            out,
            #[trigger] span_piece(s, rs, from, m),
        ) by {
            let piece = span_piece(s, rs, from, m);
            if m == 0 {
                assert(piece == a + anc);
                assert(out.subrange(0, piece.len() as int) =~= piece);
                assert(occurs_at(out, piece, 0));
            } else {
                assert(rs[m] == rest[m - 1]);
                assert(span_from(s, rs, from, m) == span_from(s, rest, nx, m - 1)) by {
                    if m > 1 {
                        assert(rs[m - 1] == rest[m - 2]);
                    }
                }
                assert(piece == span_piece(s, rest, nx, m - 1));
                assert(occurs_in(tail, span_piece(s, rest, nx, m - 1)));
                let j = choose|j: int| #[trigger] occurs_at(tail, piece, j);
                let i = a.len() + anc.len() + j;
                assert(out.subrange(i, i + piece.len()) =~= tail.subrange(j, j + piece.len()));
                assert(occurs_at(out, piece, i));
            }
        }
    }
}

/// Rendering replaces every `[[` span, not only some: for each span found, its anchor
/// (the normalized path and the escaped display text), preceded by the text since the
/// previous span, occurs in the output; the output ends with the text after the last
/// span; and it is the concatenation, span after span, of the text before it and its
/// anchor, then the text after the last span.
pub proof fn law_render_replaces_every_link(s: Seq<char>)
    ensures
        spec_render_wiki_links(s) == render_spans(s, raw_links(s), 0),
        ({
            let out = spec_render_wiki_links(s);
            let t = s.subrange(spans_end(s, raw_links(s), 0), s.len() as int);
            t.len() <= out.len() && out.subrange(out.len() - t.len(), out.len() as int) == t
        }),
        forall|m: int|
            0 <= m < raw_links(s).len() ==> occurs_in(
                spec_render_wiki_links(s),
                #[trigger] span_piece(s, raw_links(s), 0, m),
            ),
{
    if raw_links(s).len() == 0 {
        assert(s.subrange(0, s.len() as int) =~= s);
    }
    lemma_render_spans_anchors(s, raw_links(s), 0);
    lemma_render_spans_tail(s, raw_links(s), 0);
}

} // verus!
