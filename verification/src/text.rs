//! Character-level text helpers shared by the wiki modules.
//!
//! Text is modelled as `Seq<char>` (the view of `str` and `String`).

use vstd::prelude::*;

verus! {

/// Appends one character to a string (std's `String::push`).
#[verifier::external_body]
pub(crate) fn push_char(s: &mut String, c: char)
    ensures
        final(s)@ == old(s)@.push(c),
{
    s.push(c);
}

/// The characters of a string slice, in order.
pub fn chars_of(s: &str) -> (res: Vec<char>)
    ensures
        res@ == s@,
{
    let mut res: Vec<char> = Vec::new();
    for c in it: s.chars()
        invariant
            res@ == it.seq().take(it.index() as int),
    {
        res.push(c);
    }
    res
}

/// Appends a sequence of characters to a string.
pub fn push_chars(out: &mut String, cs: &[char])
    ensures
        final(out)@ == old(out)@ + cs@,
{
    let mut i: usize = 0;
    while i < cs.len()
        invariant
            i <= cs@.len(),
            out@ == old(out)@ + cs@.take(i as int),
        decreases cs@.len() - i,
    {
        push_char(out, cs[i]);
        i = i + 1;
        assert(cs@.take(i as int) == cs@.take((i - 1) as int).push(cs@[i - 1]));
    }
    assert(cs@.take(cs@.len() as int) == cs@);
}

/// Appends a string slice to a string.
pub fn push_str(out: &mut String, s: &str)
    ensures
        final(out)@ == old(out)@ + s@,
{
    let cs = chars_of(s);
    push_chars(out, cs.as_slice());
}

/// Builds a string from a sequence of characters.
pub fn string_of(cs: &[char]) -> (res: String)
    ensures
        res@ == cs@,
{
    let mut res = String::new();
    push_chars(&mut res, cs);
    res
}

/// Copies a string slice into a new string.
pub fn string_from(s: &str) -> (res: String)
    ensures
        res@ == s@,
{
    let mut res = String::new();
    push_str(&mut res, s);
    res
}

/// Concatenates two string slices.
pub fn concat(a: &str, b: &str) -> (res: String)
    ensures
        res@ == a@ + b@,
{
    let mut res = string_from(a);
    push_str(&mut res, b);
    res
}

/// Unicode `White_Space`, the property that `char::is_whitespace` tests.
pub open spec fn is_whitespace(c: char) -> bool {
    let v = c as u32;
    ||| 0x09 <= v <= 0x0d
    ||| v == 0x20
    ||| v == 0x85
    ||| v == 0xa0
    ||| v == 0x1680
    ||| 0x2000 <= v <= 0x200a
    ||| v == 0x2028
    ||| v == 0x2029
    ||| v == 0x202f
    ||| v == 0x205f
    ||| v == 0x3000
}

/// Executable test for `is_whitespace`.
pub fn char_is_whitespace(c: char) -> (res: bool)
    ensures
        res == is_whitespace(c),
{
    let v = c as u32;
    (0x09 <= v && v <= 0x0d) || v == 0x20 || v == 0x85 || v == 0xa0 || v == 0x1680 || (0x2000
        <= v && v <= 0x200a) || v == 0x2028 || v == 0x2029 || v == 0x202f || v == 0x205f || v
        == 0x3000
}

/// Drops leading characters that are whitespace.
pub open spec fn trim_start_ws(s: Seq<char>) -> Seq<char>
    decreases s.len(),
{
    if s.len() > 0 && is_whitespace(s[0]) {
        trim_start_ws(s.drop_first())
    } else {
        s
    }
}

/// Drops trailing characters that are whitespace.
pub open spec fn trim_end_ws(s: Seq<char>) -> Seq<char>
    decreases s.len(),
{
    if s.len() > 0 && is_whitespace(s.last()) {
        trim_end_ws(s.drop_last())
    } else {
        s
    }
}

/// What `str::trim` returns: the text without leading and trailing whitespace.
pub open spec fn trim_ws(s: Seq<char>) -> Seq<char> {
    trim_end_ws(trim_start_ws(s))
}

/// Drops leading copies of `c`.
pub open spec fn trim_start_char(s: Seq<char>, c: char) -> Seq<char>
    decreases s.len(),
{
    if s.len() > 0 && s[0] == c {
        trim_start_char(s.drop_first(), c)
    } else {
        s
    }
}

/// Drops trailing copies of `c`.
pub open spec fn trim_end_char(s: Seq<char>, c: char) -> Seq<char>
    decreases s.len(),
{
    if s.len() > 0 && s.last() == c {
        trim_end_char(s.drop_last(), c)
    } else {
        s
    }
}

/// What `str::trim_matches(c)` returns for a single character `c`.
pub open spec fn trim_char(s: Seq<char>, c: char) -> Seq<char> {
    trim_end_char(trim_start_char(s, c), c)
}

proof fn lemma_trim_start_ws_skip(s: Seq<char>, i: int)
    requires
        0 <= i <= s.len(),
        forall|k: int| 0 <= k < i ==> is_whitespace(#[trigger] s[k]),
    ensures
        trim_start_ws(s) == trim_start_ws(s.skip(i)),
    decreases i,
{
    if i > 0 {
        assert(s.drop_first().skip(i - 1) == s.skip(i));
        lemma_trim_start_ws_skip(s.drop_first(), i - 1);
    } else {
        assert(s.skip(0) == s);
    }
}

proof fn lemma_trim_end_ws_take(s: Seq<char>, j: int)
    requires
        0 <= j <= s.len(),
        forall|k: int| j <= k < s.len() ==> is_whitespace(#[trigger] s[k]),
    ensures
        trim_end_ws(s) == trim_end_ws(s.take(j)),
    decreases s.len() - j,
{
    if j < s.len() {
        assert(s.drop_last().take(j) == s.take(j));
        lemma_trim_end_ws_take(s.drop_last(), j);
    } else {
        assert(s.take(j) == s);
    }
}

/// `str::trim` on a character sequence.
pub fn trim_whitespace(s: &[char]) -> (res: Vec<char>)
    ensures
        res@ == trim_ws(s@),
{
    let mut i: usize = 0;
    while i < s.len() && char_is_whitespace(s[i])
        invariant
            i <= s@.len(),
            forall|k: int| 0 <= k < i ==> is_whitespace(#[trigger] s@[k]),
        decreases s@.len() - i,
    {
        i = i + 1;
    }
    proof {
        lemma_trim_start_ws_skip(s@, i as int);
    }
    let mut j: usize = s.len();
    while j > i && char_is_whitespace(s[j - 1])
        invariant
            i <= j <= s@.len(),
            forall|k: int| j <= k < s@.len() ==> is_whitespace(#[trigger] s@[k]),
        decreases j,
    {
        j = j - 1;
    }
    let ghost t = s@.skip(i as int);
    proof {
        assert(t.len() == 0 || !is_whitespace(t[0]));
        assert(trim_start_ws(t) == t);
        lemma_trim_end_ws_take(t, j - i);
    }
    let mut res: Vec<char> = Vec::new();
    let mut k: usize = i;
    while k < j
        invariant
            i <= k <= j <= s@.len(),
            res@ == s@.subrange(i as int, k as int),
        decreases j - k,
    {
        res.push(s[k]);
        k = k + 1;
    }
    proof {
        assert(res@ == t.take(j - i));
        let u = t.take(j - i);
        assert(u.len() == 0 || !is_whitespace(u.last()));
    }
    res
}

} // verus!

verus! {

/// Splits text at every `'\n'`; there is always one more piece than there are newlines.
pub open spec fn split_newlines(s: Seq<char>) -> Seq<Seq<char>>
    decreases s.len(),
{
    if s.len() == 0 {
        seq![Seq::<char>::empty()]
    } else {
        let rest = split_newlines(s.drop_last());
        if s.last() == '\n' {
            rest.push(Seq::<char>::empty())
        } else {
            rest.update(rest.len() - 1, rest.last().push(s.last()))
        }
    }
}

/// Removes one trailing carriage return.
pub open spec fn strip_cr(l: Seq<char>) -> Seq<char> {
    if l.len() > 0 && l.last() == '\r' {
        l.drop_last()
    } else {
        l
    }
}

/// What `str::lines` yields: the pieces between newlines, each piece that a
/// newline ended losing one trailing `'\r'`, and no final empty piece.
pub open spec fn lines_of(s: Seq<char>) -> Seq<Seq<char>> {
    let parts = split_newlines(s);
    let ended = parts.drop_last().map_values(|l: Seq<char>| strip_cr(l));
    if parts.last().len() == 0 {
        ended
    } else {
        ended.push(parts.last())
    }
}

/// Lines joined with `'\n'` between them (`[String]::join("\n")`).
pub open spec fn join_lines(ls: Seq<Seq<char>>) -> Seq<char>
    decreases ls.len(),
{
    if ls.len() == 0 {
        Seq::<char>::empty()
    } else if ls.len() == 1 {
        ls[0]
    } else {
        join_lines(ls.drop_last()) + seq!['\n'] + ls.last()
    }
}

pub proof fn lemma_split_newlines_nonempty(s: Seq<char>)
    ensures
        split_newlines(s).len() >= 1,
    decreases s.len(),
{
    if s.len() > 0 {
        lemma_split_newlines_nonempty(s.drop_last());
    }
}

/// Views of a vector of strings.
pub open spec fn strings_view(v: Seq<String>) -> Seq<Seq<char>> {
    v.map_values(|s: String| s@)
}

fn strip_cr_exec(l: Vec<char>) -> (res: Vec<char>)
    ensures
        res@ == strip_cr(l@),
{
    let mut l = l;
    if l.len() > 0 && l[l.len() - 1] == '\r' {
        l.pop();
    }
    l
}

/// `str::lines`: the lines of a text.
pub fn lines(s: &str) -> (res: Vec<String>)
    ensures
        strings_view(res@) == lines_of(s@),
{
    let cs = chars_of(s);
    let mut out: Vec<String> = Vec::new();
    let mut cur: Vec<char> = Vec::new();
    let mut i: usize = 0;
    proof {
        assert(cs@.take(0) =~= Seq::<char>::empty());
    }
    while i < cs.len()
        invariant
            i <= cs@.len(),
            cs@ == s@,
            split_newlines(cs@.take(i as int)).len() >= 1,
            strings_view(out@) == split_newlines(cs@.take(i as int)).drop_last().map_values(
                |l: Seq<char>| strip_cr(l),
            ),
            cur@ == split_newlines(cs@.take(i as int)).last(),
        decreases cs@.len() - i,
    {
        let c = cs[i];
        let ghost before = cs@.take(i as int);
        let ghost parts = split_newlines(before);
        proof {
            assert(cs@.take(i + 1).drop_last() == before);
            assert(cs@.take(i + 1).last() == c);
            lemma_split_newlines_nonempty(before);
        }
        let ghost old_out = out@;
        if c == '\n' {
            let line = strip_cr_exec(cur);
            let line_s = string_of(line.as_slice());
            out.push(line_s);
            cur = Vec::new();
            proof {
                let np = parts.push(Seq::<char>::empty());
                assert(np.drop_last() == parts);
                assert(parts == parts.drop_last().push(parts.last()));
                assert(out@ == old_out.push(line_s));
                assert(strings_view(out@) =~= strings_view(old_out).push(strip_cr(parts.last())));
                assert(parts.map_values(|l: Seq<char>| strip_cr(l)) =~= parts.drop_last().map_values(
                    |l: Seq<char>| strip_cr(l),
                ).push(strip_cr(parts.last())));
                assert(strings_view(out@) =~= np.drop_last().map_values(|l: Seq<char>| strip_cr(l)));
            }
        } else {
            cur.push(c);
            proof {
                let np = parts.update(parts.len() - 1, parts.last().push(c));
                assert(np.drop_last() == parts.drop_last());
            }
        }
        i = i + 1;
    }
    proof {
        assert(cs@.take(cs@.len() as int) == cs@);
    }
    if cur.len() > 0 {
        let last = string_of(cur.as_slice());
        out.push(last);
        proof {
            assert(strings_view(out@) =~= lines_of(s@));
        }
    }
    out
}

/// Joins lines with `'\n'` between them.
pub fn join_with_newlines(ls: &[String]) -> (res: String)
    ensures
        res@ == join_lines(strings_view(ls@)),
{
    let mut out = String::new();
    let mut i: usize = 0;
    while i < ls.len()
        invariant
            i <= ls@.len(),
            out@ == join_lines(strings_view(ls@.take(i as int))),
        decreases ls@.len() - i,
    {
        let ghost prev = strings_view(ls@.take(i as int));
        if i > 0 {
            push_char(&mut out, '\n');
        }
        push_str(&mut out, ls[i].as_str());
        proof {
            let now = strings_view(ls@.take(i + 1));
            assert(now.drop_last() =~= prev);
            assert(now.last() == ls@[i as int]@);
            if i == 0 {
                assert(now.len() == 1);
            }
        }
        i = i + 1;
    }
    proof {
        assert(ls@.take(ls@.len() as int) == ls@);
    }
    out
}

} // verus!

verus! {

/// Text that `lines` followed by `join("\n")` gives back unchanged: it does not end
/// with a newline and no newline follows a carriage return.
pub open spec fn is_normalized_text(s: Seq<char>) -> bool {
    &&& (s.len() == 0 || s.last() != '\n')
    &&& forall|i: int| 0 < i < s.len() && #[trigger] s[i] == '\n' ==> s[i - 1] != '\r'
}

proof fn lemma_join_update_last(ls: Seq<Seq<char>>, c: char)
    requires
        ls.len() >= 1,
    ensures
        join_lines(ls.update(ls.len() - 1, ls.last().push(c))) == join_lines(ls).push(c),
{
    let u = ls.update(ls.len() - 1, ls.last().push(c));
    if ls.len() >= 2 {
        assert(u.drop_last() == ls.drop_last());
    }
}

/// Splitting at newlines and joining with newlines gives the text back.
pub proof fn lemma_join_split(s: Seq<char>)
    ensures
        join_lines(split_newlines(s)) == s,
    decreases s.len(),
{
    if s.len() > 0 {
        lemma_join_split(s.drop_last());
        lemma_split_newlines_nonempty(s.drop_last());
        let rest = split_newlines(s.drop_last());
        if s.last() == '\n' {
            assert(rest.push(Seq::<char>::empty()).drop_last() == rest);
            assert(s == s.drop_last() + seq!['\n'] + Seq::<char>::empty());
        } else {
            lemma_join_update_last(rest, s.last());
            assert(s == s.drop_last().push(s.last()));
        }
    }
}

/// The last piece of a split is empty or ends with the text's last character.
proof fn lemma_split_last(s: Seq<char>)
    ensures
        split_newlines(s).last().len() > 0 ==> s.len() > 0 && split_newlines(s).last().last()
            == s.last(),
        s.len() > 0 && s.last() != '\n' ==> split_newlines(s).last().len() > 0,
        s.len() > 0 && s.last() == '\n' ==> split_newlines(s).last().len() == 0,
    decreases s.len(),
{
    if s.len() > 0 {
        lemma_split_newlines_nonempty(s.drop_last());
    }
}

/// Without a carriage return before a newline, no piece ended by a newline ends with `'\r'`.
proof fn lemma_split_no_cr(s: Seq<char>)
    requires
        forall|i: int| 0 < i < s.len() && #[trigger] s[i] == '\n' ==> s[i - 1] != '\r',
    ensures
        forall|k: int|
            0 <= k < split_newlines(s).len() - 1 ==> strip_cr(#[trigger] split_newlines(s)[k])
                == split_newlines(s)[k],
    decreases s.len(),
{
    if s.len() > 0 {
        let t = s.drop_last();
        assert forall|i: int| 0 < i < t.len() && #[trigger] t[i] == '\n' implies t[i - 1] != '\r' by {
            assert(s[i] == t[i]);
        }
        lemma_split_no_cr(t);
        lemma_split_newlines_nonempty(t);
        lemma_split_last(t);
        let rest = split_newlines(t);
        if s.last() == '\n' {
            let np = rest.push(Seq::<char>::empty());
            assert forall|k: int| 0 <= k < np.len() - 1 implies strip_cr(#[trigger] np[k])
                == np[k] by {
                if k == rest.len() - 1 {
                    if rest.last().len() > 0 {
                        assert(s[s.len() - 1] == '\n');
                        assert(t.last() == s[s.len() - 2]);
                    }
                }
            }
        } else {
            let np = rest.update(rest.len() - 1, rest.last().push(s.last()));
            assert forall|k: int| 0 <= k < np.len() - 1 implies strip_cr(#[trigger] np[k])
                == np[k] by {
                assert(np[k] == rest[k]);
            }
        }
    }
}

/// `lines` then `join("\n")` gives back a normalized text.
pub proof fn law_lines_join_roundtrip(s: Seq<char>)
    requires
        is_normalized_text(s),
    ensures
        join_lines(lines_of(s)) == s,
{
    lemma_join_split(s);
    lemma_split_no_cr(s);
    lemma_split_last(s);
    lemma_split_newlines_nonempty(s);
    let parts = split_newlines(s);
    let ended = parts.drop_last().map_values(|l: Seq<char>| strip_cr(l));
    assert(ended =~= parts.drop_last());
    if s.len() == 0 {
        assert(parts == seq![Seq::<char>::empty()]);
        assert(lines_of(s) == ended);
        assert(ended.len() == 0);
    } else {
        assert(parts.drop_last().push(parts.last()) == parts);
        assert(lines_of(s) == parts);
    }
}

} // verus!

verus! {

/// The result of `str::to_lowercase` (Unicode lowercase mapping, with the
/// context rule for final sigma).
pub uninterp spec fn unicode_lowercase(s: Seq<char>) -> Seq<char>;

/// `str::to_lowercase`. Claims only that the result is the named function of the input.
#[verifier::external_body]
pub(crate) fn to_lowercase(s: &str) -> (res: String)
    ensures
        res@ == unicode_lowercase(s@),
{
    s.to_lowercase()
}

proof fn lemma_trim_start_char_skip(s: Seq<char>, c: char, i: int)
    requires
        0 <= i <= s.len(),
        forall|k: int| 0 <= k < i ==> #[trigger] s[k] == c,
    ensures
        trim_start_char(s, c) == trim_start_char(s.skip(i), c),
    decreases i,
{
    if i > 0 {
        assert(s.drop_first().skip(i - 1) == s.skip(i));
        lemma_trim_start_char_skip(s.drop_first(), c, i - 1);
    } else {
        assert(s.skip(0) == s);
    }
}

proof fn lemma_trim_end_char_take(s: Seq<char>, c: char, j: int)
    requires
        0 <= j <= s.len(),
        forall|k: int| j <= k < s.len() ==> #[trigger] s[k] == c,
    ensures
        trim_end_char(s, c) == trim_end_char(s.take(j), c),
    decreases s.len() - j,
{
    if j < s.len() {
        assert(s.drop_last().take(j) == s.take(j));
        lemma_trim_end_char_take(s.drop_last(), c, j);
    } else {
        assert(s.take(j) == s);
    }
}

/// `str::trim_matches(c)` on a character sequence.
pub fn trim_matching(s: &[char], c: char) -> (res: Vec<char>)
    ensures
        res@ == trim_char(s@, c),
{
    let mut i: usize = 0;
    while i < s.len() && s[i] == c
        invariant
            i <= s@.len(),
            forall|k: int| 0 <= k < i ==> #[trigger] s@[k] == c,
        decreases s@.len() - i,
    {
        i = i + 1;
    }
    proof {
        lemma_trim_start_char_skip(s@, c, i as int);
    }
    let mut j: usize = s.len();
    while j > i && s[j - 1] == c
        invariant
            i <= j <= s@.len(),
            forall|k: int| j <= k < s@.len() ==> #[trigger] s@[k] == c,
        decreases j,
    {
        j = j - 1;
    }
    let ghost t = s@.skip(i as int);
    proof {
        assert(t.len() == 0 || t[0] != c);
        assert(trim_start_char(t, c) == t);
        lemma_trim_end_char_take(t, c, j - i);
    }
    let mut res: Vec<char> = Vec::new();
    let mut k: usize = i;
    while k < j
        invariant
            i <= k <= j <= s@.len(),
            res@ == s@.subrange(i as int, k as int),
        decreases j - k,
    {
        res.push(s[k]);
        k = k + 1;
    }
    proof {
        assert(res@ == t.take(j - i));
        let u = t.take(j - i);
        assert(u.len() == 0 || u.last() != c);
    }
    res
}

/// What `replace("//", "/")` gives: each pair of slashes, matched left to right
/// without overlap, becomes one slash.
pub open spec fn collapse_double_slashes(s: Seq<char>) -> Seq<char>
    decreases s.len(),
{
    if s.len() >= 2 && s[0] == '/' && s[1] == '/' {
        seq!['/'] + collapse_double_slashes(s.skip(2))
    } else if s.len() == 0 {
        s
    } else {
        seq![s[0]] + collapse_double_slashes(s.drop_first())
    }
}

/// `replace("//", "/")` on a character sequence.
pub fn replace_double_slashes(s: &[char]) -> (res: Vec<char>)
    ensures
        res@ == collapse_double_slashes(s@),
{
    let mut out: Vec<char> = Vec::new();
    let mut i: usize = 0;
    proof {
        assert(s@.skip(0) == s@);
    }
    while i < s.len()
        invariant
            i <= s@.len(),
            collapse_double_slashes(s@) == out@ + collapse_double_slashes(s@.skip(i as int)),
        decreases s@.len() - i,
    {
        let ghost t = s@.skip(i as int);
        if i + 1 < s.len() && s[i] == '/' && s[i + 1] == '/' {
            out.push('/');
            proof {
                assert(t.skip(2) == s@.skip(i + 2));
            }
            i = i + 2;
        } else {
            out.push(s[i]);
            proof {
                assert(t.drop_first() == s@.skip(i + 1));
            }
            i = i + 1;
        }
    }
    proof {
        assert(s@.skip(i as int).len() == 0);
    }
    out
}

} // verus!

verus! {

/// The number of UTF-8 bytes before character position `i`.
pub open spec fn byte_offset(s: Seq<char>, i: int) -> int {
    vstd::utf8::encode_utf8(s.take(i)).len() as int
}

/// The number of UTF-8 bytes of one character.
pub open spec fn utf8_width(c: char) -> int {
    vstd::utf8::encode_scalar(c as u32).len() as int
}

/// `char::len_utf8`.
pub fn char_width(c: char) -> (res: usize)
    ensures
        res == utf8_width(c),
        1 <= res <= 4,
        res == 1 <==> (c as u32) < 0x80,
{
    proof {
        vstd::utf8::char_is_scalar(c);
    }
    let v = c as u32;
    if v <= 0x7f {
        1
    } else if v <= 0x7ff {
        2
    } else if v <= 0xffff {
        3
    } else {
        4
    }
}

pub proof fn lemma_encode_concat(a: Seq<char>, b: Seq<char>)
    ensures
        vstd::utf8::encode_utf8(a + b) == vstd::utf8::encode_utf8(a) + vstd::utf8::encode_utf8(b),
    decreases a.len(),
{
    if a.len() > 0 {
        assert((a + b).drop_first() == a.drop_first() + b);
        assert((a + b)[0] == a[0]);
        lemma_encode_concat(a.drop_first(), b);
        assert(vstd::utf8::encode_scalar(a[0] as u32) + (vstd::utf8::encode_utf8(a.drop_first())
            + vstd::utf8::encode_utf8(b)) == (vstd::utf8::encode_scalar(a[0] as u32)
            + vstd::utf8::encode_utf8(a.drop_first())) + vstd::utf8::encode_utf8(b));
    } else {
        assert(a + b == b);
        assert(vstd::utf8::encode_utf8(a) == Seq::<u8>::empty());
        assert(Seq::<u8>::empty() + vstd::utf8::encode_utf8(b) == vstd::utf8::encode_utf8(b));
    }
}

pub proof fn lemma_byte_offset_step(s: Seq<char>, i: int)
    requires
        0 <= i < s.len(),
    ensures
        byte_offset(s, i + 1) == byte_offset(s, i) + utf8_width(s[i]),
{
    assert(s.take(i + 1) == s.take(i) + seq![s[i]]);
    lemma_encode_concat(s.take(i), seq![s[i]]);
    assert(seq![s[i]].drop_first() == Seq::<char>::empty());
    assert(vstd::utf8::encode_utf8(seq![s[i]]) == vstd::utf8::encode_scalar(s[i] as u32)
        + vstd::utf8::encode_utf8(Seq::<char>::empty()));
}

pub proof fn lemma_byte_offset_bounded(s: Seq<char>, i: int)
    requires
        0 <= i <= s.len(),
    ensures
        byte_offset(s, i) <= vstd::utf8::encode_utf8(s).len(),
{
    assert(s == s.take(i) + s.skip(i));
    lemma_encode_concat(s.take(i), s.skip(i));
}

/// The byte offset of every character position of a string, and of its end.
pub fn byte_offsets(s: &str, cs: &[char]) -> (res: Vec<usize>)
    requires
        cs@ == s@,
    ensures
        res@.len() == cs@.len() + 1,
        forall|i: int| 0 <= i <= cs@.len() ==> #[trigger] res@[i] == byte_offset(cs@, i),
{
    let total = s.as_bytes().len();
    let mut res: Vec<usize> = Vec::new();
    res.push(0);
    proof {
        assert(cs@.take(0) == Seq::<char>::empty());
    }
    let mut i: usize = 0;
    while i < cs.len()
        invariant
            i <= cs@.len(),
            cs@ == s@,
            total == vstd::utf8::encode_utf8(s@).len(),
            res@.len() == i + 1,
            forall|k: int| 0 <= k <= i ==> #[trigger] res@[k] == byte_offset(cs@, k),
        decreases cs@.len() - i,
    {
        proof {
            lemma_byte_offset_step(cs@, i as int);
            lemma_byte_offset_bounded(cs@, i + 1);
        }
        let w = char_width(cs[i]);
        let next = res[i] + w;
        res.push(next);
        i = i + 1;
    }
    res
}

} // verus!

verus! {

/// Lexicographic order by code point, which is the order of `String`
/// (UTF-8 keeps code point order byte for byte).
pub open spec fn lex_lt(a: Seq<char>, b: Seq<char>) -> bool
    decreases a.len(),
{
    if a.len() == 0 {
        b.len() > 0
    } else if b.len() == 0 {
        false
    } else if a[0] != b[0] {
        (a[0] as u32) < (b[0] as u32)
    } else {
        lex_lt(a.drop_first(), b.drop_first())
    }
}

pub proof fn lemma_lex_irreflexive(a: Seq<char>)
    ensures
        !lex_lt(a, a),
    decreases a.len(),
{
    if a.len() > 0 {
        lemma_lex_irreflexive(a.drop_first());
    }
}

pub proof fn lemma_lex_total(a: Seq<char>, b: Seq<char>)
    ensures
        a == b || lex_lt(a, b) || lex_lt(b, a),
    decreases a.len(),
{
    if a.len() > 0 && b.len() > 0 && a[0] == b[0] {
        lemma_lex_total(a.drop_first(), b.drop_first());
        if a.drop_first() == b.drop_first() {
            assert(a == seq![a[0]] + a.drop_first());
            assert(b == seq![b[0]] + b.drop_first());
        }
    } else if a.len() > 0 && b.len() > 0 {
        vstd::utf8::char_u32_cast(a[0], a[0] as u32);
        vstd::utf8::char_u32_cast(b[0], b[0] as u32);
    } else if a.len() == 0 && b.len() == 0 {
        assert(a == b);
    }
}

pub proof fn lemma_lex_asymmetric(a: Seq<char>, b: Seq<char>)
    requires
        lex_lt(a, b),
    ensures
        !lex_lt(b, a),
    decreases a.len(),
{
    if a.len() > 0 && b.len() > 0 && a[0] == b[0] {
        lemma_lex_asymmetric(a.drop_first(), b.drop_first());
    }
}

pub proof fn lemma_lex_transitive(a: Seq<char>, b: Seq<char>, c: Seq<char>)
    requires
        lex_lt(a, b),
        lex_lt(b, c),
    ensures
        lex_lt(a, c),
    decreases a.len(),
{
    if a.len() > 0 && b.len() > 0 && c.len() > 0 {
        if a[0] == b[0] && b[0] == c[0] {
            lemma_lex_transitive(a.drop_first(), b.drop_first(), c.drop_first());
        }
    }
}

/// `a < b` in the order of strings.
pub fn lex_less(a: &[char], b: &[char]) -> (res: bool)
    ensures
        res == lex_lt(a@, b@),
{
    let mut i: usize = 0;
    proof {
        assert(a@.skip(0) == a@);
        assert(b@.skip(0) == b@);
    }
    while i < a.len() && i < b.len() && a[i] == b[i]
        invariant
            i <= a@.len(),
            i <= b@.len(),
            lex_lt(a@, b@) == lex_lt(a@.skip(i as int), b@.skip(i as int)),
        decreases a@.len() - i,
    {
        proof {
            let x = a@.skip(i as int);
            let y = b@.skip(i as int);
            assert(x.drop_first() == a@.skip(i + 1));
            assert(y.drop_first() == b@.skip(i + 1));
        }
        i = i + 1;
    }
    if i == a.len() {
        i < b.len()
    } else if i == b.len() {
        false
    } else {
        proof {
            assert(a@.skip(i as int)[0] == a@[i as int]);
            assert(b@.skip(i as int)[0] == b@[i as int]);
        }
        (a[i] as u32) < (b[i] as u32)
    }
}

/// Whether two character sequences are equal.
pub fn chars_equal(a: &[char], b: &[char]) -> (res: bool)
    ensures
        res == (a@ == b@),
{
    if a.len() != b.len() {
        return false;
    }
    let mut i: usize = 0;
    while i < a.len()
        invariant
            i <= a@.len(),
            a@.len() == b@.len(),
            forall|k: int| 0 <= k < i ==> a@[k] == b@[k],
        decreases a@.len() - i,
    {
        if a[i] != b[i] {
            return false;
        }
        i = i + 1;
    }
    assert(a@ =~= b@);
    true
}

} // verus!

verus! {

/// The character of a decimal digit.
pub open spec fn digit_char(d: nat) -> char {
    if d == 0 {
        '0'
    } else if d == 1 {
        '1'
    } else if d == 2 {
        '2'
    } else if d == 3 {
        '3'
    } else if d == 4 {
        '4'
    } else if d == 5 {
        '5'
    } else if d == 6 {
        '6'
    } else if d == 7 {
        '7'
    } else if d == 8 {
        '8'
    } else {
        '9'
    }
}

/// The decimal representation of a number (what `Display` prints for integers).
pub open spec fn decimal(x: nat) -> Seq<char>
    decreases x,
{
    if x < 10 {
        seq![digit_char(x)]
    } else {
        decimal(x / 10).push(digit_char(x % 10))
    }
}

fn digit(d: u64) -> (res: char)
    requires
        d < 10,
    ensures
        res == digit_char(d as nat),
{
    if d == 0 {
        '0'
    } else if d == 1 {
        '1'
    } else if d == 2 {
        '2'
    } else if d == 3 {
        '3'
    } else if d == 4 {
        '4'
    } else if d == 5 {
        '5'
    } else if d == 6 {
        '6'
    } else if d == 7 {
        '7'
    } else if d == 8 {
        '8'
    } else {
        '9'
    }
}

/// Appends the decimal representation of `x`.
pub fn push_decimal(out: &mut String, x: u64)
    ensures
        final(out)@ == old(out)@ + decimal(x as nat),
    decreases x,
{
    if x >= 10 {
        push_decimal(out, x / 10);
    }
    push_char(out, digit(x % 10));
    proof {
        if x >= 10 {
            assert(decimal(x as nat) == decimal((x / 10) as nat).push(digit_char((x % 10) as nat)));
        }
    }
}

/// The first position at or after `k` holding `x`.
pub open spec fn first_index_from<T>(s: Seq<T>, x: T, k: int) -> Option<int>
    decreases s.len() - k,
{
    if k < 0 || k >= s.len() {
        None
    } else if s[k] == x {
        Some(k)
    } else {
        first_index_from(s, x, k + 1)
    }
}

/// The first position holding `x`.
pub open spec fn first_index<T>(s: Seq<T>, x: T) -> Option<int> {
    first_index_from(s, x, 0)
}

pub proof fn lemma_first_index_from<T>(s: Seq<T>, x: T, k: int)
    requires
        0 <= k <= s.len(),
    ensures
        first_index_from(s, x, k) matches Some(i) ==> k <= i < s.len() && s[i] == x && forall|
            j: int,
        | k <= j < i ==> s[j] != x,
        first_index_from(s, x, k) is None ==> forall|j: int| k <= j < s.len() ==> s[j] != x,
    decreases s.len() - k,
{
    if k < s.len() && s[k] != x {
        lemma_first_index_from(s, x, k + 1);
    }
}

} // verus!

verus! {

/// The values of `s` in order of first occurrence, each once.
pub open spec fn dedup<T>(s: Seq<T>) -> Seq<T>
    decreases s.len(),
{
    if s.len() == 0 {
        s
    } else {
        let r = dedup(s.drop_last());
        if r.contains(s.last()) {
            r
        } else {
            r.push(s.last())
        }
    }
}

/// `dedup` lists each value of `s` exactly once.
pub proof fn lemma_dedup<T>(s: Seq<T>)
    ensures
        dedup(s).no_duplicates(),
        forall|x: T| dedup(s).contains(x) <==> s.contains(x),
    decreases s.len(),
{
    if s.len() > 0 {
        broadcast use vstd::seq_lib::lemma_seq_contains_after_push;
        let p = s.drop_last();
        lemma_dedup(p);
        let r = dedup(p);
        assert forall|x: T| s.contains(x) <==> (p.contains(x) || x == s.last()) by {
            if s.contains(x) {
                let i = choose|i: int| 0 <= i < s.len() && s[i] == x;
                if i < s.len() - 1 {
                    assert(p[i] == x);
                }
            }
            if p.contains(x) {
                let i = choose|i: int| 0 <= i < p.len() && p[i] == x;
                assert(s[i] == x);
            }
            if x == s.last() {
                assert(s[s.len() - 1] == x);
            }
        }
        if !r.contains(s.last()) {
            let t = r.push(s.last());
            assert forall|i: int, j: int| 0 <= i < t.len() && 0 <= j < t.len() && i != j implies t[i]
                != t[j] by {
                if i < r.len() && j < r.len() {
                    assert(t[i] == r[i] && t[j] == r[j]);
                } else if i < r.len() {
                    assert(t[i] == r[i]);
                    assert(r.contains(r[i]));
                } else {
                    assert(t[j] == r[j]);
                    assert(r.contains(r[j]));
                }
            }
        }
    }
}

} // verus!

verus! {

/// No `"//"`.
pub open spec fn no_double_slash(s: Seq<char>) -> bool {
    forall|i: int| 0 <= i < s.len() - 1 ==> !(#[trigger] s[i] == '/' && s[i + 1] == '/')
}

/// No `"///"`.
pub open spec fn no_triple_slash(s: Seq<char>) -> bool {
    forall|i: int| 0 <= i < s.len() - 2 ==> !(#[trigger] s[i] == '/' && s[i + 1] == '/' && s[i + 2] == '/')
}

pub proof fn lemma_trim_char_shape(s: Seq<char>, c: char)
    ensures
        trim_char(s, c).len() == 0 || (trim_char(s, c)[0] != c && trim_char(s, c).last() != c),
        s.len() > 0 && s[0] != c && s.last() != c ==> trim_char(s, c) == s,
{
    lemma_trim_start_shape(s, c);
    lemma_trim_end_prefix(trim_start_char(s, c), c);
}

proof fn lemma_trim_start_shape(s: Seq<char>, c: char)
    ensures
        trim_start_char(s, c).len() == 0 || trim_start_char(s, c)[0] != c,
    decreases s.len(),
{
    if s.len() > 0 && s[0] == c {
        lemma_trim_start_shape(s.drop_first(), c);
    }
}

proof fn lemma_trim_end_prefix(u: Seq<char>, c: char)
    ensures
        trim_end_char(u, c).len() <= u.len(),
        forall|i: int| 0 <= i < trim_end_char(u, c).len() ==> trim_end_char(u, c)[i] == u[i],
        trim_end_char(u, c).len() == 0 || trim_end_char(u, c).last() != c,
    decreases u.len(),
{
    if u.len() > 0 && u.last() == c {
        lemma_trim_end_prefix(u.drop_last(), c);
        assert forall|i: int| 0 <= i < trim_end_char(u, c).len() implies trim_end_char(u, c)[i]
            == u[i] by {
            assert(u.drop_last()[i] == u[i]);
        }
    }
}

pub proof fn lemma_collapse_ends(s: Seq<char>)
    ensures
        collapse_double_slashes(s).len() == 0 <==> s.len() == 0,
        s.len() > 0 && s[0] != '/' ==> collapse_double_slashes(s)[0] == s[0],
        s.len() > 0 && s[0] == '/' ==> collapse_double_slashes(s)[0] == '/',
        s.len() > 0 && s.last() != '/' ==> collapse_double_slashes(s).last() == s.last(),
    decreases s.len(),
{
    if s.len() >= 2 && s[0] == '/' && s[1] == '/' {
        lemma_collapse_ends(s.skip(2));
        if s.len() > 2 {
            assert(s.skip(2).last() == s.last());
        }
    } else if s.len() > 0 {
        lemma_collapse_ends(s.drop_first());
        if s.len() > 1 {
            assert(s.drop_first().last() == s.last());
        }
    }
}

pub proof fn lemma_collapse_no_double(s: Seq<char>)
    requires
        no_triple_slash(s),
    ensures
        no_double_slash(collapse_double_slashes(s)),
    decreases s.len(),
{
    let r = collapse_double_slashes(s);
    if s.len() >= 2 && s[0] == '/' && s[1] == '/' {
        let t = s.skip(2);
        assert(no_triple_slash(t)) by {
            assert forall|i: int| 0 <= i < t.len() - 2 implies !(#[trigger] t[i] == '/' && t[i + 1]
                == '/' && t[i + 2] == '/') by {
                assert(t[i] == s[i + 2] && t[i + 1] == s[i + 3] && t[i + 2] == s[i + 4]);
            }
        }
        lemma_collapse_no_double(t);
        lemma_collapse_ends(t);
        if t.len() > 0 {
            assert(!(s[0] == '/' && s[1] == '/' && s[2] == '/'));
        }
        assert forall|i: int| 0 <= i < r.len() - 1 implies !(#[trigger] r[i] == '/' && r[i + 1] == '/') by {
            if i > 0 {
                assert(r[i] == collapse_double_slashes(t)[i - 1]);
                assert(r[i + 1] == collapse_double_slashes(t)[i]);
            } else {
                assert(r[1] == collapse_double_slashes(t)[0]);
            }
        }
    } else if s.len() > 0 {
        let t = s.drop_first();
        assert(no_triple_slash(t)) by {
            assert forall|i: int| 0 <= i < t.len() - 2 implies !(#[trigger] t[i] == '/' && t[i + 1]
                == '/' && t[i + 2] == '/') by {
                assert(t[i] == s[i + 1] && t[i + 1] == s[i + 2] && t[i + 2] == s[i + 3]);
            }
        }
        lemma_collapse_no_double(t);
        lemma_collapse_ends(t);
        assert forall|i: int| 0 <= i < r.len() - 1 implies !(#[trigger] r[i] == '/' && r[i + 1] == '/') by {
            if i > 0 {
                assert(r[i] == collapse_double_slashes(t)[i - 1]);
                assert(r[i + 1] == collapse_double_slashes(t)[i]);
            } else {
                assert(r[0] == s[0]);
                assert(r[1] == collapse_double_slashes(t)[0]);
                if t.len() > 0 {
                    assert(t[0] == s[1]);
                }
            }
        }
    }
}

pub proof fn lemma_collapse_identity(s: Seq<char>)
    requires
        no_double_slash(s),
    ensures
        collapse_double_slashes(s) == s,
    decreases s.len(),
{
    if s.len() > 0 {
        let t = s.drop_first();
        assert(no_double_slash(t)) by {
            assert forall|i: int| 0 <= i < t.len() - 1 implies !(#[trigger] t[i] == '/' && t[i + 1]
                == '/') by {
                assert(t[i] == s[i + 1] && t[i + 1] == s[i + 2]);
            }
        }
        if s.len() >= 2 {
            assert(!(s[0] == '/' && s[1] == '/'));
        }
        lemma_collapse_identity(t);
        assert(seq![s[0]] + t =~= s);
    }
}

} // verus!

verus! {

proof fn lemma_trim_start_suffix(s: Seq<char>, c: char) -> (k: int)
    ensures
        0 <= k <= s.len(),
        trim_start_char(s, c) == s.skip(k),
    decreases s.len(),
{
    if s.len() > 0 && s[0] == c {
        let k1 = lemma_trim_start_suffix(s.drop_first(), c);
        assert(s.drop_first().skip(k1) =~= s.skip(k1 + 1));
        k1 + 1
    } else {
        assert(s.skip(0) =~= s);
        0
    }
}

pub proof fn lemma_trim_keeps_no_triple(s: Seq<char>)
    requires
        no_triple_slash(s),
    ensures
        no_triple_slash(trim_char(s, '/')),
{
    let k = lemma_trim_start_suffix(s, '/');
    let u = s.skip(k);
    lemma_trim_end_prefix(u, '/');
    let t = trim_char(s, '/');
    assert forall|i: int| 0 <= i < t.len() - 2 implies !(#[trigger] t[i] == '/' && t[i + 1] == '/'
        && t[i + 2] == '/') by {
        assert(t[i] == u[i] && t[i + 1] == u[i + 1] && t[i + 2] == u[i + 2]);
        assert(u[i] == s[i + k] && u[i + 1] == s[i + k + 1] && u[i + 2] == s[i + k + 2]);
    }
}

} // verus!
