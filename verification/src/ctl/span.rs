//! Line/column spans of a file and their byte offsets.

use vstd::prelude::*;
use vstd::string::StringSliceAdditionalSpecFns;

verus! {

/// A region of a file by lines and optional columns, counted from 1.
#[derive(Debug, Clone)]
pub struct Span {
    pub file_path: String,
    pub line_start: u32,
    pub line_end: u32,
    pub col_start: Option<u32>,
    pub col_end: Option<u32>,
}

/// A region of a file by byte offsets.
#[derive(Debug, Clone)]
pub struct ByteSpan {
    pub file_path: String,
    pub start: usize,
    pub end: usize,
}

/// The offsets just after each `'\n'` byte of `b`, in order.
pub open spec fn after_newlines(b: Seq<u8>) -> Seq<int>
    decreases b.len(),
{
    if b.len() == 0 {
        seq![]
    } else if b.last() == 10 {
        after_newlines(b.drop_last()).push(b.len() as int)
    } else {
        after_newlines(b.drop_last())
    }
}

/// The byte offset at which each line starts, followed by the length of the text.
pub open spec fn line_offsets(b: Seq<u8>) -> Seq<int> {
    seq![0int] + after_newlines(b) + seq![b.len() as int]
}

/// The offset of line `line` (counted from 1; 0 counts as 1), or `fallback` past the end.
pub open spec fn line_offset_or(b: Seq<u8>, line: int, fallback: int) -> int {
    let k = if line >= 1 { line - 1 } else { 0 };
    if k < line_offsets(b).len() { line_offsets(b)[k] } else { fallback }
}

/// How far a column (counted from 1) lies from the start of its line.
pub open spec fn column_shift(col: Option<u32>) -> int {
    match col {
        Some(c) => if c >= 1 { c - 1 } else { 0 },
        None => 0,
    }
}

/// The byte offset of a line and column in a text whose UTF-8 bytes are `b`; 0 for a line
/// past the end.
pub open spec fn spec_byte_offset(b: Seq<u8>, line: u32, col: Option<u32>) -> int {
    line_offset_or(b, line as int, 0) + column_shift(col)
}

proof fn lemma_after_newlines_bounds(b: Seq<u8>)
    ensures
        forall|i: int| 0 <= i < after_newlines(b).len() ==> 0 < #[trigger] after_newlines(b)[i] <= b.len(),
        after_newlines(b).len() <= b.len(),
    decreases b.len(),
{
    if b.len() > 0 {
        lemma_after_newlines_bounds(b.drop_last());
    }
}

/// Every line offset lies within the text.
pub(crate) proof fn lemma_line_offsets_bounds(b: Seq<u8>)
    ensures
        forall|i: int| 0 <= i < line_offsets(b).len() ==> 0 <= #[trigger] line_offsets(b)[i] <= b.len(),
{
    lemma_after_newlines_bounds(b);
    let lo = line_offsets(b);
    assert forall|i: int| 0 <= i < lo.len() implies 0 <= #[trigger] lo[i] <= b.len() by {
        if 0 < i < lo.len() - 1 {
            assert(lo[i] == after_newlines(b)[i - 1]);
        }
    }
}

/// The start offsets of the lines of `bytes`, followed by its length.
pub(crate) fn compute_line_offsets(bytes: &[u8]) -> (r: Vec<usize>)
    ensures
        r@.len() == line_offsets(bytes@).len(),
        forall|i: int| 0 <= i < r@.len() ==> r@[i] as int == #[trigger] line_offsets(bytes@)[i],
{
    let mut r: Vec<usize> = Vec::new();
    proof { assert(bytes@.take(0) =~= Seq::<u8>::empty()); }
    for i in 0..bytes.len()
        invariant
            r@.len() == after_newlines(bytes@.take(i as int)).len(),
            forall|k: int| 0 <= k < r@.len() ==> (#[trigger] r@[k]) as int == after_newlines(bytes@.take(i as int))[k],
    {
        proof {
            assert(bytes@.take(i + 1).drop_last() =~= bytes@.take(i as int));
            assert(bytes@.take(i + 1).last() == bytes@[i as int]);
        }
        let ghost a = after_newlines(bytes@.take(i as int));
        let ghost before = r@;
        if bytes[i] == 10 {
            r.push(i + 1);
        }
        proof {
            let a2 = after_newlines(bytes@.take(i + 1));
            if bytes@[i as int] == 10 {
                assert(a2 == a.push((i + 1) as int));
            } else {
                assert(a2 == a);
            }
            assert forall|k: int| 0 <= k < r@.len() implies (#[trigger] r@[k]) as int == a2[k] by {
                if k < before.len() {
                    assert(before[k] as int == a[k]);
                    assert(r@[k] == before[k]);
                    assert(a2[k] == a[k]);
                }
            }
        }
    }
    proof { assert(bytes@.take(bytes@.len() as int) =~= bytes@); }
    let ghost a = r@;
    r.insert(0, 0);
    r.push(bytes.len());
    proof {
        let lo = line_offsets(bytes@);
        assert(lo.len() == a.len() + 2);
        assert forall|i: int| 0 <= i < r@.len() implies r@[i] as int == #[trigger] lo[i] by {
            if i == 0 {
            } else if i < r@.len() - 1 {
                assert(lo[i] == after_newlines(bytes@)[i - 1]);
                assert(r@[i] == a[i - 1]);
            } else {
                assert(lo[i] == bytes@.len());
            }
        }
    }
    r
}

fn column_shift_exec(col: Option<u32>) -> (r: usize)
    ensures
        r as int == column_shift(col),
{
    match col {
        Some(c) => if c >= 1 { (c - 1) as usize } else { 0 },
        None => 0,
    }
}

fn offset_or(offsets: &Vec<usize>, line: u32, fallback: usize) -> (r: usize)
    ensures
        r as int == (if (if line >= 1 { line - 1 } else { 0 }) < offsets@.len() {
            offsets@[if line >= 1 { line - 1 } else { 0 }] as int
        } else {
            fallback as int
        }),
{
    let k = if line >= 1 { (line - 1) as usize } else { 0 };
    if k < offsets.len() { offsets[k] } else { fallback }
}

/// The byte offset of line `line` and column `col` in `source`; lines and columns count from 1,
/// a missing column means the start of the line, and a line past the end gives 0.
pub fn byte_offset(source: &str, line: u32, col: Option<u32>) -> (r: usize)
    requires
        spec_byte_offset(source.spec_bytes(), line, col) <= usize::MAX,
    ensures
        r as int == spec_byte_offset(source.spec_bytes(), line, col),
{
    let bytes = source.as_bytes();
    let offsets = compute_line_offsets(bytes);
    proof { lemma_after_newlines_bounds(bytes@); }
    let base = offset_or(&offsets, line, 0);
    proof {
        let k = if line >= 1 { line - 1 } else { 0 };
        if k < offsets@.len() { assert(offsets@[k as int] as int == line_offsets(bytes@)[k as int]); }
    }
    base + column_shift_exec(col)
}

impl Span {
    /// The byte offset where the span ends: the offset of its end line (the end of the text for
    /// a line past it), shifted by the end column.
    pub open spec fn spec_end_offset(&self, b: Seq<u8>) -> int {
        line_offset_or(b, self.line_end as int, b.len() as int) + column_shift(self.col_end)
    }

    /// The span as byte offsets into `source`.
    pub fn to_byte_span(&self, source: &str) -> (r: ByteSpan)
        requires
            spec_byte_offset(source.spec_bytes(), self.line_start, self.col_start) <= usize::MAX,
            self.spec_end_offset(source.spec_bytes()) <= usize::MAX,
        ensures
            r.file_path@ == self.file_path@,
            r.start as int == spec_byte_offset(source.spec_bytes(), self.line_start, self.col_start),
            r.end as int == self.spec_end_offset(source.spec_bytes()),
    {
        let bytes = source.as_bytes();
        let offsets = compute_line_offsets(bytes);
        proof { lemma_after_newlines_bounds(bytes@); }
        let s0 = offset_or(&offsets, self.line_start, 0);
        let e0 = offset_or(&offsets, self.line_end, bytes.len());
        proof {
            let k1 = if self.line_start >= 1 { self.line_start - 1 } else { 0 };
            let k2 = if self.line_end >= 1 { self.line_end - 1 } else { 0 };
            if k1 < offsets@.len() { assert(offsets@[k1 as int] as int == line_offsets(bytes@)[k1 as int]); }
            if k2 < offsets@.len() { assert(offsets@[k2 as int] as int == line_offsets(bytes@)[k2 as int]); }
        }
        let start = s0 + column_shift_exec(self.col_start);
        let end = e0 + column_shift_exec(self.col_end);
        ByteSpan { file_path: self.file_path.clone(), start, end }
    }
}

} // verus!
