//! Patch operations for content-addressed editing.
//!
//! Operations target lines by content hash rather than position. The line
//! model of a text is `lines_of(text)`; each operation is a function on that
//! sequence of lines (see `apply_op`), and `apply_operations` folds a list of
//! operations over it and joins the result with newlines.

use vstd::prelude::*;
use crate::text::{
    is_normalized_text, join_lines, join_with_newlines, law_lines_join_roundtrip, lines, lines_of,
    strings_view,
};
use crate::util::{line_hash, spec_line_hash, FastHash, LineHash};

verus! {

/// A single patch operation on page content.
#[derive(Debug)]
pub enum PatchOp {
    /// Insert new lines after an anchor point.
    Insert {
        /// Hash of the line to insert after. None = beginning of document.
        anchor_hash: Option<LineHash>,
        /// Lines to insert.
        lines: Vec<String>,
    },
    /// Delete lines by their content hash.
    Delete {
        /// Hashes of lines to delete.
        line_hashes: Vec<LineHash>,
    },
    /// Replace a line matching a hash with new content.
    Replace {
        /// Hash of the original line.
        original_hash: LineHash,
        /// New content for the line.
        new_content: String,
    },
}

/// The mathematical value of a patch operation.
pub enum SpecPatchOp {
    Insert { anchor: Option<u64>, lines: Seq<Seq<char>> },
    Delete { hashes: Seq<u64> },
    Replace { original: u64, content: Seq<char> },
}

/// The raw values of a list of hashes.
pub open spec fn hash_values(hs: Seq<FastHash>) -> Seq<u64> {
    hs.map_values(|h: FastHash| h.0)
}

/// The raw value of an optional hash.
pub open spec fn opt_hash_value(h: Option<FastHash>) -> Option<u64> {
    match h {
        Some(x) => Some(x.0),
        None => None,
    }
}

impl View for PatchOp {
    type V = SpecPatchOp;

    open spec fn view(&self) -> SpecPatchOp {
        match self {
            PatchOp::Insert { anchor_hash, lines } => SpecPatchOp::Insert {
                anchor: opt_hash_value(*anchor_hash),
                lines: strings_view(lines@),
            },
            PatchOp::Delete { line_hashes } => SpecPatchOp::Delete {
                hashes: hash_values(line_hashes@),
            },
            PatchOp::Replace { original_hash, new_content } => SpecPatchOp::Replace {
                original: original_hash.0,
                content: new_content@,
            },
        }
    }
}

impl Clone for PatchOp {
    fn clone(&self) -> (res: Self)
        ensures
            res@ == self@,
    {
        match self {
            PatchOp::Insert { anchor_hash, lines } => {
                let ls = lines.clone();
                proof {
                    assert(strings_view(ls@) =~= strings_view(lines@));
                }
                PatchOp::Insert { anchor_hash: *anchor_hash, lines: ls }
            },
            PatchOp::Delete { line_hashes } => {
                let hs = line_hashes.clone();
                proof {
                    assert(hash_values(hs@) =~= hash_values(line_hashes@));
                }
                PatchOp::Delete { line_hashes: hs }
            },
            PatchOp::Replace { original_hash, new_content } => PatchOp::Replace {
                original_hash: *original_hash,
                new_content: new_content.clone(),
            },
        }
    }
}

/// The views of a list of operations.
pub open spec fn ops_view(ops: Seq<PatchOp>) -> Seq<SpecPatchOp> {
    ops.map_values(|op: PatchOp| op@)
}

/// A line with its content hash for tracking.
#[derive(Debug)]
pub struct HashedLine {
    pub hash: LineHash,
    pub content: String,
}

impl HashedLine {
    /// The hash is the line hash of the content.
    pub open spec fn wf(&self) -> bool {
        self.hash.0 == spec_line_hash(self.content@)
    }

    pub fn new(content: String) -> (res: Self)
        ensures
            res.content@ == content@,
            res.wf(),
    {
        let hash = line_hash(content.as_str());
        HashedLine { hash, content }
    }
}

impl Clone for HashedLine {
    fn clone(&self) -> (res: Self)
        ensures
            res == *self,
    {
        HashedLine { hash: self.hash, content: self.content.clone() }
    }
}

// ---------------------------------------------------------------------------
// The line model
// ---------------------------------------------------------------------------

/// `p` is the first position whose line has hash `h`.
pub open spec fn is_first_with_hash(ls: Seq<Seq<char>>, h: u64, p: int) -> bool {
    &&& 0 <= p < ls.len()
    &&& spec_line_hash(ls[p]) == h
    &&& forall|q: int| 0 <= q < p ==> spec_line_hash(#[trigger] ls[q]) != h
}

/// The position of the first line with hash `h`, if any.
pub open spec fn first_with_hash(ls: Seq<Seq<char>>, h: u64) -> Option<int> {
    if exists|p: int| is_first_with_hash(ls, h, p) {
        Some(choose|p: int| is_first_with_hash(ls, h, p))
    } else {
        None
    }
}

/// Lines whose hash is not among `hs`, in order.
pub open spec fn delete_lines(ls: Seq<Seq<char>>, hs: Seq<u64>) -> Seq<Seq<char>>
    decreases ls.len(),
{
    if ls.len() == 0 {
        ls
    } else {
        let rest = delete_lines(ls.drop_last(), hs);
        if hs.contains(spec_line_hash(ls.last())) {
            rest
        } else {
            rest.push(ls.last())
        }
    }
}

/// The first line with hash `h` becomes `content`; no change when there is none.
pub open spec fn replace_first(ls: Seq<Seq<char>>, h: u64, content: Seq<char>) -> Seq<Seq<char>> {
    match first_with_hash(ls, h) {
        Some(p) => ls.update(p, content),
        None => ls,
    }
}

/// Where `Insert` puts its lines: at the start without an anchor, after the first
/// line with the anchor's hash, or at the end when no line has it.
pub open spec fn insert_position(ls: Seq<Seq<char>>, anchor: Option<u64>) -> int {
    match anchor {
        None => 0,
        Some(h) => match first_with_hash(ls, h) {
            Some(p) => p + 1,
            None => ls.len() as int,
        },
    }
}

/// `new_lines` inserted at `insert_position`.
pub open spec fn insert_lines(
    ls: Seq<Seq<char>>,
    anchor: Option<u64>,
    new_lines: Seq<Seq<char>>,
) -> Seq<Seq<char>> {
    let pos = insert_position(ls, anchor);
    ls.take(pos) + new_lines + ls.skip(pos)
}

/// The effect of one operation on the lines.
pub open spec fn apply_op(ls: Seq<Seq<char>>, op: SpecPatchOp) -> Seq<Seq<char>> {
    match op {
        SpecPatchOp::Delete { hashes } => delete_lines(ls, hashes),
        SpecPatchOp::Replace { original, content } => replace_first(ls, original, content),
        SpecPatchOp::Insert { anchor, lines } => insert_lines(ls, anchor, lines),
    }
}

/// The operations applied one after another, first to last.
pub open spec fn apply_ops(ls: Seq<Seq<char>>, ops: Seq<SpecPatchOp>) -> Seq<Seq<char>>
    decreases ops.len(),
{
    if ops.len() == 0 {
        ls
    } else {
        apply_op(apply_ops(ls, ops.drop_last()), ops.last())
    }
}

/// The rendered text: the operations applied to the lines of `base`, joined with newlines.
pub open spec fn spec_apply_operations(base: Seq<char>, ops: Seq<SpecPatchOp>) -> Seq<char> {
    join_lines(apply_ops(lines_of(base), ops))
}

// ---------------------------------------------------------------------------
// Executable operations on hashed lines
// ---------------------------------------------------------------------------

/// The contents of hashed lines.
pub open spec fn contents(v: Seq<HashedLine>) -> Seq<Seq<char>> {
    v.map_values(|l: HashedLine| l.content@)
}

/// Every hashed line carries its own line hash.
pub open spec fn all_wf(v: Seq<HashedLine>) -> bool {
    forall|i: int| 0 <= i < v.len() ==> (#[trigger] v[i]).wf()
}

fn contains_hash(hs: &[FastHash], h: FastHash) -> (res: bool)
    ensures
        res == hash_values(hs@).contains(h.0),
{
    let mut i: usize = 0;
    while i < hs.len()
        invariant
            i <= hs@.len(),
            forall|k: int| 0 <= k < i ==> hs@[k].0 != h.0,
        decreases hs@.len() - i,
    {
        if hs[i].0 == h.0 {
            assert(hash_values(hs@)[i as int] == h.0);
            return true;
        }
        i = i + 1;
    }
    proof {
        if hash_values(hs@).contains(h.0) {
            let k = choose|k: int| 0 <= k < hash_values(hs@).len() && hash_values(hs@)[k] == h.0;
            assert(hs@[k].0 == h.0);
        }
    }
    false
}

fn find_first(v: &Vec<HashedLine>, h: FastHash) -> (res: Option<usize>)
    requires
        all_wf(v@),
    ensures
        res matches Some(p) ==> p < v@.len(),
        match res {
            Some(p) => first_with_hash(contents(v@), h.0) == Some(p as int),
            None => first_with_hash(contents(v@), h.0) is None,
        },
{
    let ghost ls = contents(v@);
    let mut i: usize = 0;
    while i < v.len()
        invariant
            i <= v@.len(),
            ls == contents(v@),
            all_wf(v@),
            forall|q: int| 0 <= q < i ==> spec_line_hash(#[trigger] ls[q]) != h.0,
        decreases v@.len() - i,
    {
        if v[i].hash.0 == h.0 {
            proof {
                assert(v@[i as int].wf());
                assert(is_first_with_hash(ls, h.0, i as int));
                let c = choose|p: int| is_first_with_hash(ls, h.0, p);
                if c < i {
                } else if c > i {
                    assert(spec_line_hash(ls[i as int]) != h.0);
                }
            }
            return Some(i);
        }
        proof {
            assert(v@[i as int].wf());
        }
        i = i + 1;
    }
    proof {
        assert(!exists|p: int| is_first_with_hash(ls, h.0, p));
    }
    None
}

fn apply_delete(v: Vec<HashedLine>, hs: &[FastHash]) -> (res: Vec<HashedLine>)
    requires
        all_wf(v@),
    ensures
        all_wf(res@),
        contents(res@) == delete_lines(contents(v@), hash_values(hs@)),
{
    let mut out: Vec<HashedLine> = Vec::new();
    let mut i: usize = 0;
    while i < v.len()
        invariant
            i <= v@.len(),
            all_wf(v@),
            all_wf(out@),
            contents(out@) == delete_lines(contents(v@.take(i as int)), hash_values(hs@)),
        decreases v@.len() - i,
    {
        let ghost prev = contents(v@.take(i as int));
        proof {
            assert(contents(v@.take(i + 1)).drop_last() =~= prev);
            assert(contents(v@.take(i + 1)).last() == v@[i as int].content@);
            assert(v@[i as int].wf());
        }
        if !contains_hash(hs, v[i].hash) {
            let l = v[i].clone();
            out.push(l);
            proof {
                assert(contents(out@) =~= delete_lines(prev, hash_values(hs@)).push(
                    v@[i as int].content@,
                ));
            }
        }
        i = i + 1;
    }
    proof {
        assert(v@.take(v@.len() as int) == v@);
    }
    out
}

fn apply_replace(v: Vec<HashedLine>, h: FastHash, new_content: &String) -> (res: Vec<HashedLine>)
    requires
        all_wf(v@),
    ensures
        all_wf(res@),
        contents(res@) == replace_first(contents(v@), h.0, new_content@),
{
    let mut v = v;
    match find_first(&v, h) {
        Some(p) => {
            let line = HashedLine::new(new_content.clone());
            let ghost old_v = v@;
            v.set(p, line);
            proof {
                assert(contents(v@) =~= contents(old_v).update(p as int, new_content@));
                assert forall|i: int| 0 <= i < v@.len() implies (#[trigger] v@[i]).wf() by {
                    if i != p {
                        assert(old_v[i].wf());
                    }
                }
            }
            v
        },
        None => v,
    }
}

fn apply_insert(v: Vec<HashedLine>, anchor: Option<FastHash>, new_lines: &Vec<String>) -> (res: Vec<
    HashedLine,
>)
    requires
        all_wf(v@),
    ensures
        all_wf(res@),
        contents(res@) == insert_lines(contents(v@), opt_hash_value(anchor), strings_view(new_lines@)),
{
    let mut v = v;
    let ghost ls = contents(v@);
    let pos: usize = match anchor {
        None => 0,
        Some(h) => match find_first(&v, h) {
            Some(p) => {
                let n = v.len();
                p + 1
            },
            None => v.len(),
        },
    };
    assert(pos as int == insert_position(ls, opt_hash_value(anchor)));
    let ghost nl = strings_view(new_lines@);
    let mut i: usize = 0;
    while i < new_lines.len()
        invariant
            i <= new_lines@.len(),
            pos <= ls.len(),
            nl == strings_view(new_lines@),
            all_wf(v@),
            contents(v@) == ls.take(pos as int) + nl.take(i as int) + ls.skip(pos as int),
            v@.len() == ls.len() + i,
        decreases new_lines@.len() - i,
    {
        let line = HashedLine::new(new_lines[i].clone());
        let ghost old_v = v@;
        let n = v.len();
        assert(pos + i <= n);
        v.insert(pos + i, line);
        proof {
            assert(nl.take(i + 1) == nl.take(i as int).push(nl[i as int]));
            assert(line.content@ == nl[i as int]);
            assert(v@ == old_v.insert(pos + i, line));
            assert(contents(v@) =~= contents(old_v).insert(pos + i, nl[i as int]));
            assert(contents(v@) =~= ls.take(pos as int) + nl.take(i + 1) + ls.skip(pos as int));
            assert forall|k: int| 0 <= k < v@.len() implies (#[trigger] v@[k]).wf() by {
                if k < pos + i {
                    assert(old_v[k].wf());
                } else if k > pos + i {
                    assert(old_v[k - 1].wf());
                }
            }
        }
        i = i + 1;
    }
    proof {
        assert(nl.take(nl.len() as int) == nl);
    }
    v
}

fn apply_one(v: Vec<HashedLine>, op: &PatchOp) -> (res: Vec<HashedLine>)
    requires
        all_wf(v@),
    ensures
        all_wf(res@),
        contents(res@) == apply_op(contents(v@), op@),
{
    match op {
        PatchOp::Delete { line_hashes } => apply_delete(v, line_hashes.as_slice()),
        PatchOp::Replace { original_hash, new_content } => apply_replace(
            v,
            *original_hash,
            new_content,
        ),
        PatchOp::Insert { anchor_hash, lines } => apply_insert(v, *anchor_hash, lines),
    }
}

/// The lines of a text, each with its hash.
fn hashed_lines(text: &str) -> (res: Vec<HashedLine>)
    ensures
        all_wf(res@),
        contents(res@) == lines_of(text@),
{
    let ls = lines(text);
    let mut out: Vec<HashedLine> = Vec::new();
    let mut i: usize = 0;
    while i < ls.len()
        invariant
            i <= ls@.len(),
            all_wf(out@),
            contents(out@) == strings_view(ls@.take(i as int)),
        decreases ls@.len() - i,
    {
        let l = HashedLine::new(ls[i].clone());
        let ghost old_out = out@;
        out.push(l);
        proof {
            assert(ls@.take(i + 1) == ls@.take(i as int).push(ls@[i as int]));
            assert(out@ == old_out.push(l));
            assert(contents(out@) =~= contents(old_out).push(ls@[i as int]@));
            assert(contents(out@) =~= strings_view(ls@.take(i + 1)));
        }
        i = i + 1;
    }
    proof {
        assert(ls@.take(ls@.len() as int) == ls@);
    }
    out
}

/// Applies operations, in the order given, to the hashed lines.
fn apply_ops_to_lines(v: Vec<HashedLine>, operations: &[PatchOp]) -> (res: Vec<HashedLine>)
    requires
        all_wf(v@),
    ensures
        all_wf(res@),
        contents(res@) == apply_ops(contents(v@), ops_view(operations@)),
{
    let ghost start = contents(v@);
    let mut v = v;
    let mut i: usize = 0;
    while i < operations.len()
        invariant
            i <= operations@.len(),
            all_wf(v@),
            contents(v@) == apply_ops(start, ops_view(operations@.take(i as int))),
        decreases operations@.len() - i,
    {
        proof {
            assert(ops_view(operations@.take(i + 1)).drop_last() =~= ops_view(
                operations@.take(i as int),
            ));
            assert(ops_view(operations@.take(i + 1)).last() == operations@[i as int]@);
        }
        v = apply_one(v, &operations[i]);
        i = i + 1;
    }
    proof {
        assert(operations@.take(operations@.len() as int) == operations@);
    }
    v
}

/// Apply patch operations to content, producing rendered output.
///
/// Operations are applied in the order provided. The caller should
/// sort operations by (timestamp, patch_id) for deterministic results.
pub fn apply_operations(base_content: &str, operations: &[PatchOp]) -> (res: String)
    ensures
        res@ == spec_apply_operations(base_content@, ops_view(operations@)),
{
    let v = hashed_lines(base_content);
    let v = apply_ops_to_lines(v, operations);
    let mut out: Vec<String> = Vec::new();
    let mut i: usize = 0;
    while i < v.len()
        invariant
            i <= v@.len(),
            strings_view(out@) == contents(v@.take(i as int)),
        decreases v@.len() - i,
    {
        let ghost old_out = out@;
        let c = v[i].content.clone();
        out.push(c);
        proof {
            assert(v@.take(i + 1) == v@.take(i as int).push(v@[i as int]));
            assert(out@ == old_out.push(c));
            assert(strings_view(out@) =~= strings_view(old_out).push(v@[i as int].content@));
            assert(strings_view(out@) =~= contents(v@.take(i + 1)));
        }
        i = i + 1;
    }
    proof {
        assert(v@.take(v@.len() as int) == v@);
    }
    join_with_newlines(out.as_slice())
}

/// Create a delete operation for a specific line.
pub fn delete_line(content: &str) -> (res: PatchOp)
    ensures
        res@ == (SpecPatchOp::Delete { hashes: seq![spec_line_hash(content@)] }),
{
    let mut hs: Vec<LineHash> = Vec::new();
    hs.push(line_hash(content));
    proof {
        assert(hash_values(hs@) =~= seq![spec_line_hash(content@)]);
    }
    PatchOp::Delete { line_hashes: hs }
}

/// Create an insert operation to add lines after an anchor.
pub fn insert_after(anchor: Option<&str>, new_lines: Vec<String>) -> (res: PatchOp)
    ensures
        res@ == (SpecPatchOp::Insert {
            anchor: match anchor {
                Some(a) => Some(spec_line_hash(a@)),
                None => None,
            },
            lines: strings_view(new_lines@),
        }),
{
    let anchor_hash = match anchor {
        Some(a) => Some(line_hash(a)),
        None => None,
    };
    PatchOp::Insert { anchor_hash, lines: new_lines }
}

/// Create a replace operation.
pub fn replace_line(original: &str, new_content: String) -> (res: PatchOp)
    ensures
        res@ == (SpecPatchOp::Replace { original: spec_line_hash(original@), content: new_content@ }),
{
    PatchOp::Replace { original_hash: line_hash(original), new_content }
}

} // verus!

verus! {

// ---------------------------------------------------------------------------
// Laws of the line model
// ---------------------------------------------------------------------------

/// No line of `ls` has a hash among `hs`.
pub open spec fn no_line_hash_in(ls: Seq<Seq<char>>, hs: Seq<u64>) -> bool {
    forall|i: int| 0 <= i < ls.len() ==> !hs.contains(spec_line_hash(#[trigger] ls[i]))
}

/// No line of `ls` has hash `h`.
pub open spec fn no_line_with_hash(ls: Seq<Seq<char>>, h: u64) -> bool {
    forall|i: int| 0 <= i < ls.len() ==> spec_line_hash(#[trigger] ls[i]) != h
}

proof fn lemma_first_unique(ls: Seq<Seq<char>>, h: u64, p: int)
    requires
        is_first_with_hash(ls, h, p),
    ensures
        first_with_hash(ls, h) == Some(p),
{
    let c = choose|q: int| is_first_with_hash(ls, h, q);
    if c < p {
        assert(spec_line_hash(ls[c]) != h);
    } else if c > p {
        assert(spec_line_hash(ls[p]) != h);
    }
}

proof fn lemma_first_none(ls: Seq<Seq<char>>, h: u64)
    requires
        no_line_with_hash(ls, h),
    ensures
        first_with_hash(ls, h) is None,
{
}

/// Some first match exists whenever any line has the hash.
proof fn lemma_first_exists(ls: Seq<Seq<char>>, h: u64, p: int)
    requires
        0 <= p < ls.len(),
        spec_line_hash(ls[p]) == h,
    ensures
        exists|q: int| is_first_with_hash(ls, h, q),
    decreases p,
{
    if exists|q: int| 0 <= q < p && spec_line_hash(#[trigger] ls[q]) == h {
        let q = choose|q: int| 0 <= q < p && spec_line_hash(#[trigger] ls[q]) == h;
        lemma_first_exists(ls, h, q);
    } else {
        assert(is_first_with_hash(ls, h, p));
    }
}

proof fn lemma_delete_concat(a: Seq<Seq<char>>, b: Seq<Seq<char>>, hs: Seq<u64>)
    ensures
        delete_lines(a + b, hs) == delete_lines(a, hs) + delete_lines(b, hs),
    decreases b.len(),
{
    if b.len() == 0 {
        assert(a + b == a);
        assert(delete_lines(a, hs) + delete_lines(b, hs) == delete_lines(a, hs));
    } else {
        assert((a + b).drop_last() == a + b.drop_last());
        assert((a + b).last() == b.last());
        lemma_delete_concat(a, b.drop_last(), hs);
    }
}

proof fn lemma_delete_keeps_all(ls: Seq<Seq<char>>, hs: Seq<u64>)
    requires
        no_line_hash_in(ls, hs),
    ensures
        delete_lines(ls, hs) == ls,
    decreases ls.len(),
{
    if ls.len() > 0 {
        assert(!hs.contains(spec_line_hash(ls[ls.len() - 1])));
        lemma_delete_keeps_all(ls.drop_last(), hs);
        assert(ls.drop_last().push(ls.last()) == ls);
    }
}

/// Every line that survives a delete was a line before it.
proof fn lemma_delete_from(ls: Seq<Seq<char>>, hs: Seq<u64>, i: int)
    requires
        0 <= i < delete_lines(ls, hs).len(),
    ensures
        exists|j: int| 0 <= j < ls.len() && ls[j] == delete_lines(ls, hs)[i],
        !hs.contains(spec_line_hash(delete_lines(ls, hs)[i])),
    decreases ls.len(),
{
    let rest = delete_lines(ls.drop_last(), hs);
    if i < rest.len() {
        lemma_delete_from(ls.drop_last(), hs, i);
        let j = choose|j: int| 0 <= j < ls.drop_last().len() && ls.drop_last()[j] == rest[i];
        assert(ls[j] == delete_lines(ls, hs)[i]);
    } else {
        assert(ls[ls.len() - 1] == delete_lines(ls, hs)[i]);
    }
}

proof fn lemma_delete_no_hash(ls: Seq<Seq<char>>, hs: Seq<u64>, h: u64)
    requires
        no_line_with_hash(ls, h),
    ensures
        no_line_with_hash(delete_lines(ls, hs), h),
{
    assert forall|i: int| 0 <= i < delete_lines(ls, hs).len() implies spec_line_hash(
        #[trigger] delete_lines(ls, hs)[i],
    ) != h by {
        lemma_delete_from(ls, hs, i);
    }
}

/// Splits the lines around the first line with hash `h`.
proof fn lemma_split_at_first(ls: Seq<Seq<char>>, h: u64, p: int)
    requires
        is_first_with_hash(ls, h, p),
    ensures
        ls == ls.take(p) + seq![ls[p]] + ls.skip(p + 1),
        no_line_with_hash(ls.take(p), h),
        ls.take(p + 1) == ls.take(p) + seq![ls[p]],
{
    assert(ls =~= ls.take(p) + seq![ls[p]] + ls.skip(p + 1));
    assert(ls.take(p + 1) =~= ls.take(p) + seq![ls[p]]);
}

/// Deleting lines keeps the first line with hash `h` first, when `h` is not deleted.
proof fn lemma_delete_first(ls: Seq<Seq<char>>, hs: Seq<u64>, h: u64, p: int)
    requires
        is_first_with_hash(ls, h, p),
        !hs.contains(h),
    ensures
        is_first_with_hash(
            delete_lines(ls, hs),
            h,
            delete_lines(ls.take(p), hs).len() as int,
        ),
        delete_lines(ls, hs).take(delete_lines(ls.take(p), hs).len() + 1int) == delete_lines(
            ls.take(p + 1),
            hs,
        ),
        delete_lines(ls, hs).skip(delete_lines(ls.take(p), hs).len() + 1int) == delete_lines(
            ls.skip(p + 1),
            hs,
        ),
{
    lemma_split_at_first(ls, h, p);
    let a = ls.take(p);
    let x = seq![ls[p]];
    let b = ls.skip(p + 1);
    lemma_delete_concat(a + x, b, hs);
    lemma_delete_concat(a, x, hs);
    assert(x.drop_last() == Seq::<Seq<char>>::empty());
    assert(delete_lines(x.drop_last(), hs) == Seq::<Seq<char>>::empty());
    assert(delete_lines(x, hs) == seq![ls[p]]);
    let da = delete_lines(a, hs);
    let d = delete_lines(ls, hs);
    assert(d == da + seq![ls[p]] + delete_lines(b, hs));
    lemma_delete_no_hash(a, hs, h);
    assert(d[da.len() as int] == ls[p]);
    assert forall|q: int| 0 <= q < da.len() implies spec_line_hash(#[trigger] d[q]) != h by {
        assert(d[q] == da[q]);
    }
    assert(d.take(da.len() + 1int) =~= da + seq![ls[p]]);
    assert(d.skip(da.len() + 1int) =~= delete_lines(b, hs));
}

/// Two deletes give the same lines in either order.
pub proof fn law_delete_delete_commute(ls: Seq<Seq<char>>, a: Seq<u64>, b: Seq<u64>)
    ensures
        delete_lines(delete_lines(ls, a), b) == delete_lines(delete_lines(ls, b), a),
    decreases ls.len(),
{
    if ls.len() > 0 {
        law_delete_delete_commute(ls.drop_last(), a, b);
        let x = ls.last();
        let ra = delete_lines(ls.drop_last(), a);
        let rb = delete_lines(ls.drop_last(), b);
        if !a.contains(spec_line_hash(x)) {
            assert(ra.push(x).drop_last() == ra);
        }
        if !b.contains(spec_line_hash(x)) {
            assert(rb.push(x).drop_last() == rb);
        }
    }
}

/// A delete and an insert give the same lines in either order, unless the delete
/// removes the insert's anchor or one of the inserted lines.
pub proof fn law_delete_insert_commute(
    ls: Seq<Seq<char>>,
    hs: Seq<u64>,
    anchor: Option<u64>,
    new_lines: Seq<Seq<char>>,
)
    requires
        anchor matches Some(h) ==> !hs.contains(h),
        no_line_hash_in(new_lines, hs),
    ensures
        delete_lines(insert_lines(ls, anchor, new_lines), hs) == insert_lines(
            delete_lines(ls, hs),
            anchor,
            new_lines,
        ),
{
    lemma_delete_keeps_all(new_lines, hs);
    let d = delete_lines(ls, hs);
    match anchor {
        None => {
            assert(ls.take(0) == Seq::<Seq<char>>::empty());
            assert(ls.skip(0) == ls);
            assert(d.take(0) == Seq::<Seq<char>>::empty());
            assert(d.skip(0) == d);
            lemma_delete_concat(Seq::<Seq<char>>::empty() + new_lines, ls, hs);
            lemma_delete_concat(Seq::<Seq<char>>::empty(), new_lines, hs);
            assert(Seq::<Seq<char>>::empty() + new_lines == new_lines);
            assert(delete_lines(Seq::<Seq<char>>::empty(), hs) == Seq::<Seq<char>>::empty());
            assert(Seq::<Seq<char>>::empty() + new_lines + d == new_lines + d);
        },
        Some(h) => {
            if exists|p: int| is_first_with_hash(ls, h, p) {
                let p = choose|p: int| is_first_with_hash(ls, h, p);
                lemma_first_unique(ls, h, p);
                lemma_delete_first(ls, hs, h, p);
                let q = delete_lines(ls.take(p), hs).len() as int;
                lemma_first_unique(d, h, q);
                lemma_delete_concat(ls.take(p + 1) + new_lines, ls.skip(p + 1), hs);
                lemma_delete_concat(ls.take(p + 1), new_lines, hs);
            } else {
                assert forall|i: int| 0 <= i < ls.len() implies spec_line_hash(#[trigger] ls[i])
                    != h by {
                    if spec_line_hash(ls[i]) == h {
                        lemma_first_exists(ls, h, i);
                    }
                }
                lemma_delete_no_hash(ls, hs, h);
                lemma_first_none(d, h);
                assert(ls.take(ls.len() as int) == ls);
                assert(ls.skip(ls.len() as int) == Seq::<Seq<char>>::empty());
                assert(d.take(d.len() as int) == d);
                assert(d.skip(d.len() as int) == Seq::<Seq<char>>::empty());
                lemma_delete_concat(ls + new_lines, Seq::<Seq<char>>::empty(), hs);
                lemma_delete_concat(ls, new_lines, hs);
                assert(ls + new_lines + Seq::<Seq<char>>::empty() == ls + new_lines);
                assert(d + new_lines + Seq::<Seq<char>>::empty() == d + new_lines);
            }
        },
    }
}

/// A delete and a replace give the same lines in either order, unless the delete
/// removes the replaced line or the replacement.
pub proof fn law_delete_replace_commute(
    ls: Seq<Seq<char>>,
    hs: Seq<u64>,
    h: u64,
    content: Seq<char>,
)
    requires
        !hs.contains(h),
        !hs.contains(spec_line_hash(content)),
    ensures
        delete_lines(replace_first(ls, h, content), hs) == replace_first(
            delete_lines(ls, hs),
            h,
            content,
        ),
{
    let d = delete_lines(ls, hs);
    if exists|p: int| is_first_with_hash(ls, h, p) {
        let p = choose|p: int| is_first_with_hash(ls, h, p);
        lemma_first_unique(ls, h, p);
        lemma_delete_first(ls, hs, h, p);
        let q = delete_lines(ls.take(p), hs).len() as int;
        lemma_first_unique(d, h, q);
        lemma_split_at_first(ls, h, p);
        let a = ls.take(p);
        let b = ls.skip(p + 1);
        assert(ls.update(p, content) =~= a + seq![content] + b);
        lemma_delete_concat(a + seq![content], b, hs);
        lemma_delete_concat(a, seq![content], hs);
        lemma_delete_concat(a + seq![ls[p]], b, hs);
        lemma_delete_concat(a, seq![ls[p]], hs);
        assert(seq![content].drop_last() == Seq::<Seq<char>>::empty());
        assert(seq![ls[p]].drop_last() == Seq::<Seq<char>>::empty());
        assert(delete_lines(seq![content], hs) == seq![content]);
        assert(delete_lines(seq![ls[p]], hs) == seq![ls[p]]);
        let da = delete_lines(a, hs);
        let db = delete_lines(b, hs);
        assert(d == da + seq![ls[p]] + db);
        assert(d.update(q, content) =~= da + seq![content] + db);
    } else {
        assert forall|i: int| 0 <= i < ls.len() implies spec_line_hash(#[trigger] ls[i]) != h by {
            if spec_line_hash(ls[i]) == h {
                lemma_first_exists(ls, h, i);
            }
        }
        lemma_delete_no_hash(ls, hs, h);
        lemma_first_none(d, h);
    }
}

/// Deleting hashes that no line has changes nothing.
pub proof fn law_delete_missing_is_noop(ls: Seq<Seq<char>>, hs: Seq<u64>)
    requires
        no_line_hash_in(ls, hs),
    ensures
        apply_op(ls, SpecPatchOp::Delete { hashes: hs }) == ls,
{
    lemma_delete_keeps_all(ls, hs);
}

/// Replacing a hash that no line has changes nothing.
pub proof fn law_replace_missing_is_noop(ls: Seq<Seq<char>>, h: u64, content: Seq<char>)
    requires
        no_line_with_hash(ls, h),
    ensures
        apply_op(ls, SpecPatchOp::Replace { original: h, content }) == ls,
{
}

/// Inserting after an anchor that no line has appends the new lines.
pub proof fn law_insert_missing_anchor_appends(
    ls: Seq<Seq<char>>,
    h: u64,
    new_lines: Seq<Seq<char>>,
)
    requires
        no_line_with_hash(ls, h),
    ensures
        apply_op(ls, SpecPatchOp::Insert { anchor: Some(h), lines: new_lines }) == ls + new_lines,
{
    assert(ls.take(ls.len() as int) == ls);
    assert(ls.skip(ls.len() as int) == Seq::<Seq<char>>::empty());
    assert(ls + new_lines + Seq::<Seq<char>>::empty() == ls + new_lines);
}

/// Inserting without an anchor puts the new lines first.
pub proof fn law_insert_without_anchor_prepends(ls: Seq<Seq<char>>, new_lines: Seq<Seq<char>>)
    ensures
        apply_op(ls, SpecPatchOp::Insert { anchor: None, lines: new_lines }) == new_lines + ls,
{
    assert(ls.take(0) == Seq::<Seq<char>>::empty());
    assert(ls.skip(0) == ls);
    assert(Seq::<Seq<char>>::empty() + new_lines + ls == new_lines + ls);
}

} // verus!

verus! {

// ---------------------------------------------------------------------------
// Laws of `apply_operations`
// ---------------------------------------------------------------------------

proof fn lemma_apply_two(ls: Seq<Seq<char>>, x: SpecPatchOp, y: SpecPatchOp)
    ensures
        apply_ops(ls, seq![x, y]) == apply_op(apply_op(ls, x), y),
{
    assert(seq![x, y].drop_last() == seq![x]);
    assert(seq![x].drop_last() == Seq::<SpecPatchOp>::empty());
    assert(apply_ops(ls, Seq::<SpecPatchOp>::empty()) == ls);
    assert(apply_ops(ls, seq![x]) == apply_op(ls, x));
}

proof fn lemma_apply_one(ls: Seq<Seq<char>>, x: SpecPatchOp)
    ensures
        apply_ops(ls, seq![x]) == apply_op(ls, x),
{
    assert(seq![x].drop_last() == Seq::<SpecPatchOp>::empty());
    assert(apply_ops(ls, Seq::<SpecPatchOp>::empty()) == ls);
}

/// With no operations, a normalized text renders as itself.
pub proof fn law_no_operations_keep_text(base: Seq<char>)
    requires
        is_normalized_text(base),
    ensures
        spec_apply_operations(base, Seq::<SpecPatchOp>::empty()) == base,
{
    law_lines_join_roundtrip(base);
}

/// Deleting a line no line of a normalized text has leaves the text unchanged.
pub proof fn law_delete_missing_keeps_text(base: Seq<char>, hs: Seq<u64>)
    requires
        is_normalized_text(base),
        no_line_hash_in(lines_of(base), hs),
    ensures
        spec_apply_operations(base, seq![SpecPatchOp::Delete { hashes: hs }]) == base,
{
    lemma_apply_one(lines_of(base), SpecPatchOp::Delete { hashes: hs });
    law_delete_missing_is_noop(lines_of(base), hs);
    law_lines_join_roundtrip(base);
}

/// Replacing a line no line of a normalized text has leaves the text unchanged.
pub proof fn law_replace_missing_keeps_text(base: Seq<char>, h: u64, content: Seq<char>)
    requires
        is_normalized_text(base),
        no_line_with_hash(lines_of(base), h),
    ensures
        spec_apply_operations(base, seq![SpecPatchOp::Replace { original: h, content }]) == base,
{
    lemma_apply_one(lines_of(base), SpecPatchOp::Replace { original: h, content });
    law_lines_join_roundtrip(base);
}

/// Two deletes render the same text in either order.
pub proof fn law_deletes_commute(base: Seq<char>, a: Seq<u64>, b: Seq<u64>)
    ensures
        spec_apply_operations(
            base,
            seq![SpecPatchOp::Delete { hashes: a }, SpecPatchOp::Delete { hashes: b }],
        ) == spec_apply_operations(
            base,
            seq![SpecPatchOp::Delete { hashes: b }, SpecPatchOp::Delete { hashes: a }],
        ),
{
    let ls = lines_of(base);
    lemma_apply_two(ls, SpecPatchOp::Delete { hashes: a }, SpecPatchOp::Delete { hashes: b });
    lemma_apply_two(ls, SpecPatchOp::Delete { hashes: b }, SpecPatchOp::Delete { hashes: a });
    law_delete_delete_commute(ls, a, b);
}

/// A delete and an insert render the same text in either order, unless the
/// delete removes the anchor or an inserted line.
pub proof fn law_delete_insert_commute_text(
    base: Seq<char>,
    hs: Seq<u64>,
    anchor: Option<u64>,
    new_lines: Seq<Seq<char>>,
)
    requires
        anchor matches Some(h) ==> !hs.contains(h),
        no_line_hash_in(new_lines, hs),
    ensures
        spec_apply_operations(
            base,
            seq![
                SpecPatchOp::Delete { hashes: hs },
                SpecPatchOp::Insert { anchor, lines: new_lines },
            ],
        ) == spec_apply_operations(
            base,
            seq![
                SpecPatchOp::Insert { anchor, lines: new_lines },
                SpecPatchOp::Delete { hashes: hs },
            ],
        ),
{
    let ls = lines_of(base);
    let d = SpecPatchOp::Delete { hashes: hs };
    let i = SpecPatchOp::Insert { anchor, lines: new_lines };
    lemma_apply_two(ls, d, i);
    lemma_apply_two(ls, i, d);
    law_delete_insert_commute(ls, hs, anchor, new_lines);
}

/// A delete and a replace render the same text in either order, unless the
/// delete removes the replaced line or the replacement.
pub proof fn law_delete_replace_commute_text(
    base: Seq<char>,
    hs: Seq<u64>,
    h: u64,
    content: Seq<char>,
)
    requires
        !hs.contains(h),
        !hs.contains(spec_line_hash(content)),
    ensures
        spec_apply_operations(
            base,
            seq![
                SpecPatchOp::Delete { hashes: hs },
                SpecPatchOp::Replace { original: h, content },
            ],
        ) == spec_apply_operations(
            base,
            seq![
                SpecPatchOp::Replace { original: h, content },
                SpecPatchOp::Delete { hashes: hs },
            ],
        ),
{
    let ls = lines_of(base);
    let d = SpecPatchOp::Delete { hashes: hs };
    let r = SpecPatchOp::Replace { original: h, content };
    lemma_apply_two(ls, d, r);
    lemma_apply_two(ls, r, d);
    law_delete_replace_commute(ls, hs, h, content);
}

} // verus!

verus! {

/// Every operation is a deletion.
pub open spec fn all_deletions(ops: Seq<SpecPatchOp>) -> bool {
    forall|i: int| 0 <= i < ops.len() ==> (#[trigger] ops[i]) is Delete
}

/// The hashes named by the deletions among `ops`, in order.
pub open spec fn deleted_hashes(ops: Seq<SpecPatchOp>) -> Seq<u64>
    decreases ops.len(),
{
    if ops.len() == 0 {
        Seq::empty()
    } else {
        deleted_hashes(ops.drop_last()) + match ops.last() {
            SpecPatchOp::Delete { hashes } => hashes,
            _ => Seq::empty(),
        }
    }
}

proof fn lemma_delete_union(ls: Seq<Seq<char>>, a: Seq<u64>, b: Seq<u64>)
    ensures
        delete_lines(delete_lines(ls, a), b) == delete_lines(ls, a + b),
    decreases ls.len(),
{
    broadcast use vstd::seq_lib::lemma_seq_concat_contains_all_elements;

    if ls.len() > 0 {
        lemma_delete_union(ls.drop_last(), a, b);
        let x = ls.last();
        let ra = delete_lines(ls.drop_last(), a);
        if !a.contains(spec_line_hash(x)) {
            assert(ra.push(x).drop_last() == ra);
        }
    }
}

/// Deleting depends only on which hashes are named, not on their order or repetition.
pub proof fn law_delete_depends_on_hash_set(ls: Seq<Seq<char>>, a: Seq<u64>, b: Seq<u64>)
    requires
        forall|h: u64| a.contains(h) <==> b.contains(h),
    ensures
        delete_lines(ls, a) == delete_lines(ls, b),
    decreases ls.len(),
{
    if ls.len() > 0 {
        law_delete_depends_on_hash_set(ls.drop_last(), a, b);
    }
}

/// A list of deletions removes exactly the lines whose hash is named by any of them,
/// keeping the others in order.
pub proof fn law_deletions_remove_union(ls: Seq<Seq<char>>, ops: Seq<SpecPatchOp>)
    requires
        all_deletions(ops),
    ensures
        apply_ops(ls, ops) == delete_lines(ls, deleted_hashes(ops)),
    decreases ops.len(),
{
    if ops.len() == 0 {
        lemma_delete_keeps_all(ls, Seq::empty());
    } else {
        let p = ops.drop_last();
        assert(all_deletions(p)) by {
            assert forall|i: int| 0 <= i < p.len() implies (#[trigger] p[i]) is Delete by {
                assert(p[i] == ops[i]);
            }
        }
        law_deletions_remove_union(ls, p);
        assert(ops[ops.len() - 1] is Delete);
        lemma_delete_union(ls, deleted_hashes(p), ops.last()->hashes);
    }
}

proof fn lemma_deleted_hashes_contains(ops: Seq<SpecPatchOp>, h: u64)
    requires
        all_deletions(ops),
    ensures
        deleted_hashes(ops).contains(h) <==> exists|i: int|
            0 <= i < ops.len() && (#[trigger] ops[i])->hashes.contains(h),
    decreases ops.len(),
{
    broadcast use vstd::seq_lib::lemma_seq_concat_contains_all_elements;

    if ops.len() > 0 {
        let p = ops.drop_last();
        assert(all_deletions(p)) by {
            assert forall|i: int| 0 <= i < p.len() implies (#[trigger] p[i]) is Delete by {
                assert(p[i] == ops[i]);
            }
        }
        lemma_deleted_hashes_contains(p, h);
        assert(ops[ops.len() - 1] is Delete);
        if exists|i: int| 0 <= i < ops.len() && (#[trigger] ops[i])->hashes.contains(h) {
            let i = choose|i: int| 0 <= i < ops.len() && (#[trigger] ops[i])->hashes.contains(h);
            if i < ops.len() - 1 {
                assert(p[i] == ops[i]);
            }
        }
        if exists|i: int| 0 <= i < p.len() && (#[trigger] p[i])->hashes.contains(h) {
            let i = choose|i: int| 0 <= i < p.len() && (#[trigger] p[i])->hashes.contains(h);
            assert(ops[i] == p[i]);
        }
    }
}

/// Deletions commute as a whole: the text is the same for any ordering of the same
/// deletions. Each removes every line (of the normalized line model) whose trimmed hash
/// it names.
pub proof fn law_deletions_in_any_order(base: Seq<char>, ops1: Seq<SpecPatchOp>, ops2: Seq<SpecPatchOp>)
    requires
        all_deletions(ops1),
        ops2.to_multiset() == ops1.to_multiset(),
    ensures
        all_deletions(ops2),
        spec_apply_operations(base, ops1) == join_lines(
            delete_lines(lines_of(base), deleted_hashes(ops1)),
        ),
        spec_apply_operations(base, ops2) == spec_apply_operations(base, ops1),
{
    broadcast use vstd::seq_lib::to_multiset_contains;

    assert forall|i: int| 0 <= i < ops2.len() implies (#[trigger] ops2[i]) is Delete by {
        assert(ops2.contains(ops2[i]));
        assert(ops2.to_multiset().count(ops2[i]) > 0);
        assert(ops1.to_multiset().count(ops2[i]) > 0);
        assert(ops1.contains(ops2[i]));
        let j = choose|j: int| 0 <= j < ops1.len() && ops1[j] == ops2[i];
        assert(ops1[j] is Delete);
    }
    law_deletions_remove_union(lines_of(base), ops1);
    law_deletions_remove_union(lines_of(base), ops2);
    assert forall|h: u64| deleted_hashes(ops1).contains(h) <==> deleted_hashes(ops2).contains(h) by {
        lemma_deleted_hashes_contains(ops1, h);
        lemma_deleted_hashes_contains(ops2, h);
        if exists|i: int| 0 <= i < ops1.len() && (#[trigger] ops1[i])->hashes.contains(h) {
            let i = choose|i: int| 0 <= i < ops1.len() && (#[trigger] ops1[i])->hashes.contains(h);
            assert(ops1.contains(ops1[i]));
            assert(ops1.to_multiset().count(ops1[i]) > 0);
            assert(ops2.to_multiset().count(ops1[i]) > 0);
            assert(ops2.contains(ops1[i]));
            let j = choose|j: int| 0 <= j < ops2.len() && ops2[j] == ops1[i];
            assert(ops2[j]->hashes.contains(h));
        }
        if exists|i: int| 0 <= i < ops2.len() && (#[trigger] ops2[i])->hashes.contains(h) {
            let i = choose|i: int| 0 <= i < ops2.len() && (#[trigger] ops2[i])->hashes.contains(h);
            assert(ops2.contains(ops2[i]));
            assert(ops2.to_multiset().count(ops2[i]) > 0);
            assert(ops1.to_multiset().count(ops2[i]) > 0);
            assert(ops1.contains(ops2[i]));
            let j = choose|j: int| 0 <= j < ops1.len() && ops1[j] == ops2[i];
            assert(ops1[j]->hashes.contains(h));
        }
    }
    law_delete_depends_on_hash_set(lines_of(base), deleted_hashes(ops1), deleted_hashes(ops2));
}

} // verus!
