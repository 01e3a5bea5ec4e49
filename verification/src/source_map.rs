use crate::byte_span::ByteSpan;
use crate::source_position::SourcePosition;
use crate::source_position::SourcePositionView;
use crate::source_span::SourceSpan;
use vstd::prelude::*;
use vstd::string::StringSliceAdditionalSpecFns;

verus! {

// ── Line structure of UTF-8 source text ─────────────────────────────

/// `k` is the byte offset at which a line begins: the start of the text,
/// or just after a line terminator (`\n`, `\r\n`, or a bare `\r`).
pub open spec fn is_line_start(bytes: Seq<u8>, k: int) -> bool {
    &&& 0 <= k <= bytes.len()
    &&& (k == 0 || bytes[k - 1] == 10u8 || (bytes[k - 1] == 13u8 && (k == bytes.len() || bytes[k]
        != 10u8)))
}

/// A source text small enough for 32-bit byte offsets and for column
/// counts (up to two UTF-16 units per byte) to fit in a `usize`.
pub open spec fn fits_offsets(bytes: Seq<u8>) -> bool {
    bytes.len() <= u32::MAX && 2 * bytes.len() <= usize::MAX
}

/// The values are strictly increasing.
pub open spec fn strictly_increasing(s: Seq<u32>) -> bool {
    forall|i: int, j: int| 0 <= i < j < s.len() ==> s[i] < s[j]
}

/// `ls` lists, in increasing order, exactly the line starts of `bytes`.
pub open spec fn valid_line_starts(bytes: Seq<u8>, ls: Seq<u32>) -> bool {
    &&& ls.len() >= 1
    &&& ls[0] == 0
    &&& strictly_increasing(ls)
    &&& forall|i: int| 0 <= i < ls.len() ==> is_line_start(bytes, #[trigger] ls[i] as int)
    &&& forall|k: int| is_line_start(bytes, k) ==> exists|i: int| 0 <= i < ls.len() && #[trigger] ls[i] == k
}

/// A UTF-8 continuation byte (`10xxxxxx`).
pub open spec fn is_continuation_byte(b: u8) -> bool {
    0x80 <= b < 0xC0
}

/// The number of characters whose encoding starts within `b`.
pub open spec fn count_scalars(b: Seq<u8>) -> nat
    decreases b.len(),
{
    if b.len() == 0 {
        0
    } else {
        count_scalars(b.drop_last()) + if is_continuation_byte(b.last()) {
            0nat
        } else {
            1nat
        }
    }
}

/// The number of UTF-16 code units of the characters whose encoding starts
/// within `b` (characters encoded on four bytes take two code units).
pub open spec fn count_utf16_units(b: Seq<u8>) -> nat
    decreases b.len(),
{
    if b.len() == 0 {
        0
    } else {
        count_utf16_units(b.drop_last()) + if b.last() >= 0xF0 {
            2nat
        } else if is_continuation_byte(b.last()) {
            0nat
        } else {
            1nat
        }
    }
}

/// The number of entries of `s` that are at most `x`.
pub open spec fn count_at_most(s: Seq<u32>, x: u32) -> int
    decreases s.len(),
{
    if s.len() == 0 {
        0
    } else {
        count_at_most(s.drop_last(), x) + if s.last() <= x {
            1int
        } else {
            0int
        }
    }
}

/// The keys of the pre-computed entries, in order.
pub open spec fn entry_keys(entries: Seq<(u32, SourcePositionView)>) -> Seq<u32> {
    entries.map_values(|e: (u32, SourcePositionView)| e.0)
}

/// The values are non-decreasing.
pub open spec fn non_decreasing(s: Seq<u32>) -> bool {
    forall|i: int, j: int| 0 <= i <= j < s.len() ==> s[i] <= s[j]
}

// ── Resolution in each mode ─────────────────────────────────────────

/// The line (0-based) containing byte offset `off`: the last line start
/// at or before `off`.
pub open spec fn line_of(ls: Seq<u32>, off: u32) -> int {
    count_at_most(ls, off) - 1
}

/// Position of byte offset `off` in source-text mode.
pub open spec fn resolve_in_text(bytes: Seq<u8>, ls: Seq<u32>, off: u32) -> Option<
    SourcePositionView,
> {
    if off > bytes.len() {
        None
    } else {
        let line = line_of(ls, off);
        let seg = bytes.subrange(ls[line] as int, off as int);
        Some(
            SourcePositionView {
                line: line as nat,
                col_utf8: count_scalars(seg),
                col_utf16: Some(count_utf16_units(seg)),
                byte_offset: off as nat,
            },
        )
    }
}

/// Position of byte offset `off` in pre-computed mode: the position of the
/// last entry whose offset is at most `off` (floor lookup).
pub open spec fn resolve_in_entries(entries: Seq<(u32, SourcePositionView)>, off: u32) -> Option<
    SourcePositionView,
> {
    let n = count_at_most(entry_keys(entries), off);
    if n > 0 {
        Some(entries[n - 1].1)
    } else {
        None
    }
}

/// The mathematical content of a [`SourceMap`]'s resolution data.
pub enum SourceMapMode {
    /// The UTF-8 bytes of the source text and its line starts.
    Text { bytes: Seq<u8>, line_starts: Seq<u32> },
    /// Pre-computed `(byte offset, position)` entries.
    Precomputed { entries: Seq<(u32, SourcePositionView)> },
}

/// The mathematical content of a [`SourceMap`].
pub struct SourceMapView {
    pub mode: SourceMapMode,
    pub file_path: Option<Seq<char>>,
}

/// Position of byte offset `off` according to a source map's content.
pub open spec fn spec_resolve(m: SourceMapView, off: u32) -> Option<SourcePositionView> {
    match m.mode {
        SourceMapMode::Text { bytes, line_starts } => resolve_in_text(bytes, line_starts, off),
        SourceMapMode::Precomputed { entries } => resolve_in_entries(entries, off),
    }
}

// ── Exec helpers ─────────────────────────────────────────────────────

proof fn lemma_count_at_most_prefix(s: Seq<u32>, x: u32, r: int)
    requires
        0 <= r <= s.len(),
        forall|i: int| 0 <= i < r ==> s[i] <= x,
        forall|i: int| r <= i < s.len() ==> s[i] > x,
    ensures
        count_at_most(s, x) == r,
    decreases s.len(),
{
    if s.len() > 0 {
        if r == s.len() {
            lemma_count_at_most_prefix(s.drop_last(), x, r - 1);
        } else {
            lemma_count_at_most_prefix(s.drop_last(), x, r);
        }
    }
}

/// Binary search for the number of elements of a sorted vector that are at
/// most `x`.
fn partition_at_most(s: &Vec<u32>, x: u32) -> (r: usize)
    requires
        non_decreasing(s@),
    ensures
        r <= s.len(),
        r == count_at_most(s@, x),
        forall|i: int| 0 <= i < r ==> s@[i] <= x,
        forall|i: int| r <= i < s.len() ==> s@[i] > x,
{
    let mut lo: usize = 0;
    let mut hi: usize = s.len();
    while lo < hi
        invariant
            0 <= lo <= hi <= s.len(),
            non_decreasing(s@),
            forall|i: int| 0 <= i < lo ==> s@[i] <= x,
            forall|i: int| hi <= i < s.len() ==> s@[i] > x,
        decreases hi - lo,
    {
        let mid = lo + (hi - lo) / 2;
        if s[mid] <= x {
            lo = mid + 1;
        } else {
            hi = mid;
        }
    }
    proof {
        lemma_count_at_most_prefix(s@, x, lo as int);
    }
    lo
}

/// Binary search over the keys of the pre-computed entries.
fn partition_entries(entries: &Vec<(u32, SourcePosition)>, x: u32) -> (r: usize)
    requires
        non_decreasing(entry_keys(entries_view(entries@))),
    ensures
        r == count_at_most(entry_keys(entries_view(entries@)), x),
        r <= entries.len(),
{
    let ghost keys = entry_keys(entries_view(entries@));
    let mut lo: usize = 0;
    let mut hi: usize = entries.len();
    while lo < hi
        invariant
            0 <= lo <= hi <= entries.len(),
            keys.len() == entries.len(),
            keys == entry_keys(entries_view(entries@)),
            non_decreasing(keys),
            forall|i: int| 0 <= i < lo ==> keys[i] <= x,
            forall|i: int| hi <= i < keys.len() ==> keys[i] > x,
        decreases hi - lo,
    {
        let mid = lo + (hi - lo) / 2;
        assert(keys[mid as int] == entries@[mid as int].0);
        if entries[mid].0 <= x {
            lo = mid + 1;
        } else {
            hi = mid;
        }
    }
    proof {
        lemma_count_at_most_prefix(keys, x, lo as int);
    }
    lo
}

/// The entries with positions taken by their views.
pub open spec fn entries_view(entries: Seq<(u32, SourcePosition)>) -> Seq<(u32, SourcePositionView)> {
    entries.map_values(|e: (u32, SourcePosition)| (e.0, e.1@))
}

/// Internal storage mode for position resolution.
#[derive(Debug)]
enum SourceMapData<'src> {
    /// Source-text mode: positions are resolved on demand from the line
    /// starts and the bytes of the line.
    SourceText { source: &'src str, line_starts: Vec<u32> },
    /// Pre-computed columns mode: positions were pushed during lexing.
    PrecomputedColumns { entries: Vec<(u32, SourcePosition)> },
}

/// Maps byte offsets to line/column positions within a source text.
///
/// In source-text mode the map holds the source and the byte offset of
/// every line start (line terminators: `\n`, `\r`, `\r\n`). In pre-computed
/// mode it holds `(byte offset, position)` entries pushed by a token source
/// in increasing offset order, and lookups return the position of the last
/// entry at or before the requested offset.
#[derive(Debug)]
pub struct SourceMap<'src> {
    data: SourceMapData<'src>,
    file_path: Option<String>,
}

impl<'src> View for SourceMap<'src> {
    type V = SourceMapView;

    closed spec fn view(&self) -> SourceMapView {
        SourceMapView {
            mode: match self.data {
                SourceMapData::SourceText { source, line_starts } => SourceMapMode::Text {
                    bytes: source.spec_bytes(),
                    line_starts: line_starts@,
                },
                SourceMapData::PrecomputedColumns { entries } => SourceMapMode::Precomputed {
                    entries: entries_view(entries@),
                },
            },
            file_path: match self.file_path {
                Some(p) => Some(p@),
                None => None,
            },
        }
    }
}

impl<'src> SourceMap<'src> {
    /// The map's internal invariant: line starts are exactly those of the
    /// source (which fits 32-bit offsets), and entries are sorted by offset.
    pub closed spec fn wf(&self) -> bool {
        match self.data {
            SourceMapData::SourceText { source, line_starts } => {
                &&& fits_offsets(source.spec_bytes())
                &&& valid_line_starts(source.spec_bytes(), line_starts@)
            },
            SourceMapData::PrecomputedColumns { entries } => {
                non_decreasing(entry_keys(entries_view(entries@)))
            },
        }
    }

    /// The invariant in terms of the view.
    pub broadcast proof fn lemma_wf_view(&self)
        requires
            #[trigger] self.wf(),
        ensures
            match self@.mode {
                SourceMapMode::Text { bytes, line_starts } => fits_offsets(bytes)
                    && valid_line_starts(bytes, line_starts),
                SourceMapMode::Precomputed { entries } => non_decreasing(entry_keys(entries)),
            },
    {
    }

    /// Builds a `SourceMap` in source-text mode by scanning `source` for
    /// line terminators (`\n`, `\r`, `\r\n`).
    pub fn new_with_source(source: &'src str, file_path: Option<String>) -> (r: SourceMap<'src>)
        requires
            fits_offsets(source.spec_bytes()),
        ensures
            r.wf(),
            r@.mode matches SourceMapMode::Text { bytes, line_starts } && bytes
                == source.spec_bytes() && valid_line_starts(bytes, line_starts),
            r@.file_path == (match file_path {
                Some(p) => Some(p@),
                None => None::<Seq<char>>,
            }),
    {
        let line_starts = Self::compute_line_starts(source);
        SourceMap { data: SourceMapData::SourceText { source, line_starts }, file_path }
    }

    /// Creates a `SourceMap` in pre-computed columns mode, with no entries.
    pub fn new_precomputed(file_path: Option<String>) -> (r: SourceMap<'src>)
        ensures
            r.wf(),
            r@.mode == (SourceMapMode::Precomputed { entries: Seq::empty() }),
            r@.file_path == (match file_path {
                Some(p) => Some(p@),
                None => None::<Seq<char>>,
            }),
    {
        let entries: Vec<(u32, SourcePosition)> = Vec::new();
        proof {
            assert(entries_view(entries@) =~= Seq::empty());
            assert(entry_keys(entries_view(entries@)) =~= Seq::empty());
        }
        SourceMap { data: SourceMapData::PrecomputedColumns { entries }, file_path }
    }

    /// Returns the source text, if this is a source-text-mode `SourceMap`.
    pub fn source(&self) -> (r: Option<&'src str>)
        ensures
            r matches Some(s) ==> (self@.mode matches SourceMapMode::Text { bytes, .. } && bytes
                == s.spec_bytes()),
            r is None <==> self@.mode is Precomputed,
    {
        match &self.data {
            SourceMapData::SourceText { source, .. } => Some(*source),
            SourceMapData::PrecomputedColumns { .. } => None,
        }
    }

    /// Returns the file path, if available.
    pub fn file_path(&self) -> (r: Option<&String>)
        ensures
            r matches Some(p) ==> self@.file_path == Some(p@),
            r is None <==> self@.file_path is None,
    {
        match &self.file_path {
            Some(p) => Some(p),
            None => None,
        }
    }

    /// Inserts a pre-computed position entry. Entries must be inserted in
    /// non-decreasing byte-offset order, into a pre-computed-mode map.
    pub fn insert_computed_position(&mut self, byte_offset: u32, position: SourcePosition)
        requires
            old(self).wf(),
            old(self)@.mode matches SourceMapMode::Precomputed { entries } && (entries.len() == 0
                || entries.last().0 <= byte_offset),
        ensures
            final(self).wf(),
            final(self)@.file_path == old(self)@.file_path,
            old(self)@.mode matches SourceMapMode::Precomputed { entries: old_entries }
                && final(self)@.mode == (SourceMapMode::Precomputed {
                entries: old_entries.push((byte_offset, position@)),
            }),
    {
        match &mut self.data {
            SourceMapData::PrecomputedColumns { entries } => {
                let ghost old_entries = entries@;
                entries.push((byte_offset, position));
                proof {
                    assert(entries_view(entries@) =~= entries_view(old_entries).push(
                        (byte_offset, position@),
                    ));
                    let ok = entry_keys(entries_view(old_entries));
                    assert(entry_keys(entries_view(entries@)) =~= ok.push(byte_offset));
                    if ok.len() > 0 {
                        assert(ok.last() == entries_view(old_entries).last().0);
                    }
                    assert(non_decreasing(ok.push(byte_offset)));
                }
            },
            SourceMapData::SourceText { .. } => {},
        }
    }

    /// Resolves a byte offset to a full [`SourcePosition`].
    ///
    /// Source-text mode: `None` when the offset lies past the end of the
    /// source; otherwise the line is the last line starting at or before the
    /// offset, and the columns count the characters (and UTF-16 code units)
    /// from the line start to the offset. Pre-computed mode: the position of
    /// the last entry at or before the offset, or `None` if there is none.
    pub fn resolve_offset(&self, byte_offset: u32) -> (r: Option<SourcePosition>)
        requires
            self.wf(),
        ensures
            r matches Some(p) ==> spec_resolve(self@, byte_offset) == Some(p@),
            r is None <==> spec_resolve(self@, byte_offset) is None,
    {
        match &self.data {
            SourceMapData::SourceText { source, line_starts } => {
                let bytes = source.as_bytes();
                let offset = byte_offset as usize;
                if offset > bytes.len() {
                    return None;
                }
                let line_index = partition_at_most(line_starts, byte_offset);
                proof {
                    assert(line_starts@[0] == 0);
                }
                let line = line_index - 1;
                let line_start = line_starts[line] as usize;
                let ghost seg_full = bytes@.subrange(line_start as int, offset as int);
                let mut col_utf8: usize = 0;
                let mut col_utf16: usize = 0;
                let mut i = line_start;
                while i < offset
                    invariant
                        line_start <= i <= offset <= bytes@.len(),
                        fits_offsets(bytes@),
                        col_utf8 == count_scalars(bytes@.subrange(line_start as int, i as int)),
                        col_utf16 == count_utf16_units(
                            bytes@.subrange(line_start as int, i as int),
                        ),
                        col_utf8 <= i - line_start,
                        col_utf16 <= 2 * (i - line_start),
                    decreases offset - i,
                {
                    let b = bytes[i];
                    proof {
                        let s1 = bytes@.subrange(line_start as int, i + 1);
                        assert(s1.drop_last() =~= bytes@.subrange(line_start as int, i as int));
                        assert(s1.last() == b);
                    }
                    if b >= 0xF0 {
                        col_utf8 = col_utf8 + 1;
                        col_utf16 = col_utf16 + 2;
                    } else if b >= 0x80 && b < 0xC0 {
                    } else {
                        col_utf8 = col_utf8 + 1;
                        col_utf16 = col_utf16 + 1;
                    }
                    i = i + 1;
                }
                Some(SourcePosition::new(line, col_utf8, Some(col_utf16), offset))
            },
            SourceMapData::PrecomputedColumns { entries } => {
                if entries.len() == 0 {
                    proof {
                        assert(entry_keys(entries_view(entries@)) =~= Seq::<u32>::empty());
                    }
                    return None;
                }
                let idx = partition_entries(entries, byte_offset);
                if idx > 0 {
                    Some(entries[idx - 1].1)
                } else {
                    None
                }
            },
        }
    }

    /// Resolves a [`ByteSpan`] to a full [`SourceSpan`] with line/column
    /// information and file path; `None` if either endpoint cannot be
    /// resolved.
    pub fn resolve_span(&self, span: ByteSpan) -> (r: Option<SourceSpan>)
        requires
            self.wf(),
        ensures
            r is Some <==> (spec_resolve(self@, span.start) is Some && spec_resolve(
                self@,
                span.end,
            ) is Some),
            r matches Some(s) ==> {
                &&& spec_resolve(self@, span.start) == Some(s.start_inclusive@)
                &&& spec_resolve(self@, span.end) == Some(s.end_exclusive@)
                &&& s.file_path is Some <==> self@.file_path is Some
                &&& s.file_path is Some ==> self@.file_path == Some(s.file_path->0@)
            },
    {
        let start = match self.resolve_offset(span.start) {
            Some(p) => p,
            None => return None,
        };
        let end = match self.resolve_offset(span.end) {
            Some(p) => p,
            None => return None,
        };
        match &self.file_path {
            Some(path) => Some(SourceSpan::with_file(start, end, path.clone())),
            None => Some(SourceSpan::new(start, end)),
        }
    }

    /// Scans source text and returns the byte offset of the start of each
    /// line. Line terminators: `\n`, `\r`, `\r\n` (the pair counts as one).
    fn compute_line_starts(source: &str) -> (r: Vec<u32>)
        requires
            source.spec_bytes().len() <= u32::MAX,
        ensures
            valid_line_starts(source.spec_bytes(), r@),
    {
        let bytes = source.as_bytes();
        let len = bytes.len();
        let mut line_starts: Vec<u32> = Vec::new();
        line_starts.push(0);
        let mut i: usize = 0;
        proof {
            assert forall|k: int| 0 <= k <= i && is_line_start(bytes@, k) implies exists|j: int|
                0 <= j < line_starts@.len() && #[trigger] line_starts@[j] == k by {
                assert(line_starts@[0] == k);
            }
        }
        while i < len
            invariant
                len == bytes@.len(),
                len <= u32::MAX,
                i <= len,
                line_starts@.len() >= 1,
                line_starts@[0] == 0,
                strictly_increasing(line_starts@),
                line_starts@.last() <= i,
                forall|j: int| 0 <= j < line_starts@.len() ==> is_line_start(bytes@, #[trigger] line_starts@[j] as int),
                forall|k: int| 0 <= k <= i && is_line_start(bytes@, k) ==> exists|j: int| 0 <= j < line_starts@.len() && #[trigger] line_starts@[j] == k,
                // a `\r` that ends the scanned prefix is followed by a `\n`
                // that starts the next step only when it was consumed as a pair
                i > 0 && bytes@[i - 1] == 13u8 ==> (i == len || bytes@[i as int] != 10u8),
            decreases len - i,
        {
            let b = bytes[i];
            let ghost old_ls = line_starts@;
            let ghost old_i = i;
            if b == 10u8 {
                line_starts.push((i + 1) as u32);
                i = i + 1;
            } else if b == 13u8 {
                if i + 1 < len && bytes[i + 1] == 10u8 {
                    line_starts.push((i + 2) as u32);
                    i = i + 2;
                    proof {
                        assert(!is_line_start(bytes@, (i - 1) as int));
                    }
                } else {
                    line_starts.push((i + 1) as u32);
                    i = i + 1;
                }
            } else {
                i = i + 1;
                proof {
                    assert(!is_line_start(bytes@, i as int));
                }
            }
            proof {
                assert forall|k: int| 0 <= k <= i && is_line_start(bytes@, k) implies exists|
                    j: int,
                | 0 <= j < line_starts@.len() && #[trigger] line_starts@[j] == k by {
                    if k == i && line_starts@.last() == k {
                        assert(line_starts@[line_starts@.len() - 1] == k);
                    } else if k <= old_i {
                        let j0 = choose|j: int| 0 <= j < old_ls.len() && #[trigger] old_ls[j] == k;
                        assert(line_starts@[j0] == k);
                    }
                }
            }
        }
        line_starts
    }
}

} // verus!
