//! The formatting engine: selections, the policies that widen a caret into a
//! working range, and the two ways of laying out markdown around a range.
use vstd::prelude::*;

use crate::text::{
    char_is_whitespace, chars_of, ends_with, has_prefix, is_whitespace, join_lines,
    lemma_lines_shape, lines_of, lines_view, prefix_each_line, prefix_lines, push_joined,
    push_range, range_ends_with, range_equals, range_starts_with, split_lines, starts_with,
    string_of, strip_each_line, strip_lines, strip_prefix, strip_suffix,
};

pub mod lemmas;
pub mod tool;

verus! {

/// A half-open range `[start, end)` of character offsets into a text buffer.
/// An empty range is a caret.
#[derive(Default, Debug, Clone, Copy, PartialEq, Eq, Structural)]
pub struct Selection {
    pub start: usize,
    pub end: usize,
}

impl Selection {
    /// The range lies within a buffer of `n` characters.
    pub open spec fn valid_in(self, n: int) -> bool {
        self.start <= self.end <= n
    }

    /// Whether the selection is a caret.
    pub fn is_empty(&self) -> (r: bool)
        requires
            self.start <= self.end,
        ensures
            r == (self.start == self.end),
    {
        self.len() == 0
    }

    /// The number of characters selected.
    pub fn len(&self) -> (r: usize)
        requires
            self.start <= self.end,
        ensures
            r == self.end - self.start,
    {
        self.end - self.start
    }
}

impl From<core::ops::Range<usize>> for Selection {
    fn from(range: core::ops::Range<usize>) -> (r: Selection) {
        Selection { start: range.start, end: range.end }
    }
}

impl vstd::std_specs::convert::FromSpecImpl<core::ops::Range<usize>> for Selection {
    open spec fn obeys_from_spec() -> bool {
        true
    }

    open spec fn from_spec(range: core::ops::Range<usize>) -> Selection {
        Selection { start: range.start, end: range.end }
    }
}

impl core::ops::Add<usize> for Selection {
    type Output = Selection;

    /// Both ends moved right by `rhs`.
    fn add(self, rhs: usize) -> (r: Selection) {
        Selection { start: self.start + rhs, end: self.end + rhs }
    }
}

impl vstd::std_specs::ops::AddSpecImpl<usize> for Selection {
    open spec fn obeys_add_spec() -> bool {
        true
    }

    open spec fn add_req(self, rhs: usize) -> bool {
        self.start + rhs <= usize::MAX && self.end + rhs <= usize::MAX
    }

    open spec fn add_spec(self, rhs: usize) -> Selection {
        Selection { start: (self.start + rhs) as usize, end: (self.end + rhs) as usize }
    }
}

impl core::ops::Sub<usize> for Selection {
    type Output = Selection;

    /// Both ends moved left by `rhs`.
    fn sub(self, rhs: usize) -> (r: Selection) {
        Selection { start: self.start - rhs, end: self.end - rhs }
    }
}

impl vstd::std_specs::ops::SubSpecImpl<usize> for Selection {
    open spec fn obeys_sub_spec() -> bool {
        true
    }

    open spec fn sub_req(self, rhs: usize) -> bool {
        rhs <= self.start && rhs <= self.end
    }

    open spec fn sub_spec(self, rhs: usize) -> Selection {
        Selection { start: (self.start - rhs) as usize, end: (self.end - rhs) as usize }
    }
}

impl core::ops::Add<Selection> for Selection {
    type Output = Selection;

    /// The ends added field by field.
    fn add(self, rhs: Selection) -> (r: Selection) {
        Selection { start: self.start + rhs.start, end: self.end + rhs.end }
    }
}

impl vstd::std_specs::ops::AddSpecImpl<Selection> for Selection {
    open spec fn obeys_add_spec() -> bool {
        true
    }

    open spec fn add_req(self, rhs: Selection) -> bool {
        self.start + rhs.start <= usize::MAX && self.end + rhs.end <= usize::MAX
    }

    open spec fn add_spec(self, rhs: Selection) -> Selection {
        Selection { start: (self.start + rhs.start) as usize, end: (self.end + rhs.end) as usize }
    }
}

impl core::ops::Sub<Selection> for Selection {
    type Output = Selection;

    /// The ends subtracted field by field.
    fn sub(self, rhs: Selection) -> (r: Selection) {
        Selection { start: self.start - rhs.start, end: self.end - rhs.end }
    }
}

impl vstd::std_specs::ops::SubSpecImpl<Selection> for Selection {
    open spec fn obeys_sub_spec() -> bool {
        true
    }

    open spec fn sub_req(self, rhs: Selection) -> bool {
        rhs.start <= self.start && rhs.end <= self.end
    }

    open spec fn sub_spec(self, rhs: Selection) -> Selection {
        Selection { start: (self.start - rhs.start) as usize, end: (self.end - rhs.end) as usize }
    }
}

/// How a caret is widened into a working range before an operation applies.
#[derive(Debug, Clone, Copy, PartialEq, Eq, Structural)]
pub enum UnselectedApplyMode {
    /// From the whitespace before the caret to the whitespace after it.
    Word,
    /// From the line break before the caret to the line break after it.
    Line,
    /// From the whitespace before the caret to the line break after it.
    FromWordToEndLine,
}

impl Default for UnselectedApplyMode {
    fn default() -> (r: UnselectedApplyMode)
        ensures
            r == UnselectedApplyMode::Word,
    {
        UnselectedApplyMode::Word
    }
}

impl UnselectedApplyMode {
    /// A character just before which a widened range may start.
    pub open spec fn start_boundary(self, c: char) -> bool {
        match self {
            UnselectedApplyMode::Word | UnselectedApplyMode::FromWordToEndLine => char_is_whitespace(c),
            UnselectedApplyMode::Line => c == '\n',
        }
    }

    /// A character at which a widened range may end.
    pub open spec fn end_boundary(self, c: char) -> bool {
        match self {
            UnselectedApplyMode::Word => char_is_whitespace(c),
            UnselectedApplyMode::Line | UnselectedApplyMode::FromWordToEndLine => c == '\n',
        }
    }

    /// The offset just after the last start boundary before offset `c`, or 0.
    pub open spec fn scan_start(self, text: Seq<char>, c: int) -> int
        decreases c,
    {
        if c <= 0 {
            0
        } else if self.start_boundary(text[c - 1]) {
            c
        } else {
            self.scan_start(text, c - 1)
        }
    }

    /// The offset of the first end boundary at or after offset `c`, or the
    /// length of the text.
    pub open spec fn scan_end(self, text: Seq<char>, c: int) -> int
        decreases text.len() - c,
    {
        if c >= text.len() {
            text.len() as int
        } else if self.end_boundary(text[c]) {
            c
        } else {
            self.scan_end(text, c + 1)
        }
    }

    /// The working range for `selection`: the selection itself where it is
    /// not empty, else the range widened around the caret.
    pub open spec fn spec_expand(self, text: Seq<char>, selection: Selection) -> Selection {
        if selection.start == selection.end {
            Selection {
                start: self.scan_start(text, selection.start as int) as usize,
                end: self.scan_end(text, selection.end as int) as usize,
            }
        } else {
            selection
        }
    }

    /// Whether a widened range may start just after `ch`.
    pub fn is_start_boundary(&self, ch: char) -> (r: bool)
        ensures
            r == self.start_boundary(ch),
    {
        match self {
            UnselectedApplyMode::Word | UnselectedApplyMode::FromWordToEndLine => is_whitespace(ch),
            UnselectedApplyMode::Line => ch == '\n',
        }
    }

    /// Whether a widened range may end at `ch`.
    pub fn is_end_boundary(&self, ch: char) -> (r: bool)
        ensures
            r == self.end_boundary(ch),
    {
        match self {
            UnselectedApplyMode::Word => is_whitespace(ch),
            UnselectedApplyMode::Line | UnselectedApplyMode::FromWordToEndLine => ch == '\n',
        }
    }

    /// The working range for `selection` in `text`.
    pub fn expand(&self, text: &Vec<char>, selection: Selection) -> (r: Selection)
        requires
            selection.valid_in(text@.len() as int),
        ensures
            r == self.spec_expand(text@, selection),
            r.valid_in(text@.len() as int),
            r.start <= selection.start,
            selection.end <= r.end,
    {
        if selection.start != selection.end {
            return selection;
        }
        let mut start: usize = selection.start;
        while start > 0 && !self.is_start_boundary(text[start - 1])
            invariant
                start <= selection.start <= text.len(),
                self.scan_start(text@, start as int) == self.scan_start(text@, selection.start as int),
            decreases start,
        {
            start = start - 1;
        }
        let mut end: usize = selection.end;
        while end < text.len() && !self.is_end_boundary(text[end])
            invariant
                selection.end <= end <= text.len(),
                self.scan_end(text@, end as int) == self.scan_end(text@, selection.end as int),
            decreases text.len() - end,
        {
            end = end + 1;
        }
        Selection { start, end }
    }
}

/// A buffer of `n` characters that is small enough for every tool of the
/// toolbar: each formatted result of it has a length that fits in a `usize`.
pub open spec fn within_buffer_limit(n: int) -> bool {
    n <= usize::MAX / 8
}

/// A markdown formatting operation.
pub enum ReplaceFmt {
    /// Symmetric decoration: a prefix before the range and a suffix after it.
    Around(String, String),
    /// Block decoration: a prefix at the start of every line of the range.
    StartLine(String),
}

impl From<(String, String)> for ReplaceFmt {
    /// A symmetric wrap from its prefix and suffix.
    fn from(markers: (String, String)) -> (r: ReplaceFmt) {
        ReplaceFmt::Around(markers.0, markers.1)
    }
}

impl vstd::std_specs::convert::FromSpecImpl<(String, String)> for ReplaceFmt {
    open spec fn obeys_from_spec() -> bool {
        true
    }

    open spec fn from_spec(markers: (String, String)) -> ReplaceFmt {
        ReplaceFmt::Around(markers.0, markers.1)
    }
}

/// `replacement` is a working range for `selection` in a buffer of `n`
/// characters: it holds the selection, and equals it where it is not empty.
pub open spec fn replacement_of(n: int, selection: Selection, replacement: Selection) -> bool {
    &&& replacement.start <= selection.start <= selection.end <= replacement.end <= n
    &&& selection.start != selection.end ==> replacement == selection
}

/// The larger of two integers.
pub open spec fn max_of(a: int, b: int) -> int {
    if a >= b {
        a
    } else {
        b
    }
}

/// The smaller of two integers.
pub open spec fn min_of(a: int, b: int) -> int {
    if a <= b {
        a
    } else {
        b
    }
}

/// A selection from two offsets.
pub open spec fn sel(start: int, end: int) -> Selection {
    Selection { start: start as usize, end: end as usize }
}

/// The symmetric wrap of `text[replacement]` in `p` and `s`, or its removal
/// where the range is already wrapped, and where `selection` goes.
pub open spec fn around_spec(
    text: Seq<char>,
    p: Seq<char>,
    s: Seq<char>,
    selection: Selection,
    replacement: Selection,
) -> (Seq<char>, Selection) {
    let before = text.subrange(0, replacement.start as int);
    let source = text.subrange(replacement.start as int, replacement.end as int);
    let after = text.subrange(replacement.end as int, text.len() as int);
    let (ss, se) = (selection.start as int, selection.end as int);
    if ends_with(before, p) && starts_with(after, s) {
        (strip_suffix(before, p) + source + strip_prefix(after, s), sel(ss - p.len(), se - p.len()))
    } else if starts_with(source, p) && ends_with(source, s) && source.len() >= p.len() + s.len() {
        (
            before + strip_suffix(strip_prefix(source, p), s) + after,
            if ss == se {
                let pos = max_of(before.len() as int, ss - p.len());
                sel(pos, pos)
            } else {
                sel(ss, se - p.len() - s.len())
            },
        )
    } else {
        (before + p + source + s + after, sel(ss + p.len(), se + p.len()))
    }
}

/// Every line after the first starts with `p`.
pub open spec fn rest_prefixed(lines: Seq<Seq<char>>, p: Seq<char>) -> bool {
    forall|i: int| 1 <= i < lines.len() ==> starts_with(#[trigger] lines[i], p)
}

/// The text is empty or ends with a line break.
pub open spec fn at_line_start(before: Seq<char>) -> bool {
    before.len() == 0 || before.last() == '\n'
}

/// The per-line prefixing of `text[replacement]` with `p`, or its removal
/// where the lines already carry it, and where `selection` goes.
pub open spec fn start_line_spec(
    text: Seq<char>,
    p: Seq<char>,
    selection: Selection,
    replacement: Selection,
) -> (Seq<char>, Selection) {
    let before = text.subrange(0, replacement.start as int);
    let source = text.subrange(replacement.start as int, replacement.end as int);
    let after = text.subrange(replacement.end as int, text.len() as int);
    let lines = lines_of(source);
    let n = lines.len() as int;
    let pl = p.len() as int;
    let block = seq!['\n'] + p;
    let (ss, se) = (selection.start as int, selection.end as int);
    if rest_prefixed(lines, p) && (ends_with(before, block) || before == p) {
        (
            strip_suffix(before, p) + join_lines(strip_lines(lines, p, 1)) + after,
            sel(ss - pl, max_of(ss - pl, se - pl * n)),
        )
    } else if rest_prefixed(lines, p) && at_line_start(before) && starts_with(source, p) {
        (
            before + join_lines(strip_lines(lines, p, 0)) + after,
            if ss == se {
                let d = min_of(pl, ss - replacement.start);
                sel(ss - d, se - d)
            } else {
                sel(ss, max_of(ss, se - pl * n))
            },
        )
    } else if rest_prefixed(lines, p) && starts_with(source, block) {
        let st = max_of(0, ss - pl);
        (before + join_lines(strip_lines(lines, p, 0)) + after, sel(st, max_of(st, se - pl * n)))
    } else {
        let nl: int = if at_line_start(before) {
            0
        } else {
            1
        };
        (
            before + (if nl == 1 {
                seq!['\n']
            } else {
                Seq::empty()
            }) + join_lines(prefix_lines(lines, p)) + after,
            sel(ss + nl + pl, se + nl + pl * n),
        )
    }
}

/// Whether every line after the first starts with `p`.
fn all_but_first_prefixed(lines: &Vec<Vec<char>>, p: &Vec<char>) -> (r: bool)
    ensures
        r == rest_prefixed(lines_view(lines@), p@),
{
    let ghost ls = lines_view(lines@);
    let mut i: usize = 1;
    while i < lines.len()
        invariant
            1 <= i,
            ls == lines_view(lines@),
            forall|j: int| 1 <= j < i && j < ls.len() ==> starts_with(#[trigger] ls[j], p@),
        decreases lines.len() - i,
    {
        assert(ls[i as int] == lines@[i as int]@);
        if !has_prefix(&lines[i], p) {
            return false;
        }
        i = i + 1;
    }
    true
}

/// `text[..keep]`, then a line break where `newline` holds, then the lines
/// joined, then `text[from..]`.
fn rebuild(text: &Vec<char>, keep: usize, newline: bool, lines: &Vec<Vec<char>>, from: usize) -> (r:
    Vec<char>)
    requires
        keep <= text.len(),
        from <= text.len(),
    ensures
        r@ == text@.subrange(0, keep as int) + (if newline {
            seq!['\n']
        } else {
            Seq::empty()
        }) + join_lines(lines_view(lines@)) + text@.subrange(from as int, text@.len() as int),
{
    let mut out: Vec<char> = Vec::new();
    push_range(&mut out, text, 0, keep);
    if newline {
        out.push('\n');
    }
    push_joined(&mut out, lines);
    push_range(&mut out, text, from, text.len());
    assert(out@ =~= text@.subrange(0, keep as int) + (if newline {
        seq!['\n']
    } else {
        Seq::empty()
    }) + join_lines(lines_view(lines@)) + text@.subrange(from as int, text@.len() as int));
    out
}

/// A text that ends with a line break and `p`, or is `p`, ends with `p`.
proof fn lemma_ends_with_block(before: Seq<char>, p: Seq<char>)
    requires
        ends_with(before, seq!['\n'] + p) || before == p,
    ensures
        ends_with(before, p),
        strip_suffix(before, p) == before.subrange(0, before.len() - p.len()),
{
    let block = seq!['\n'] + p;
    if ends_with(before, block) {
        assert(before.subrange(before.len() - p.len(), before.len() as int) =~= before.subrange(
            before.len() - block.len(),
            before.len() as int,
        ).subrange(1, block.len() as int));
        assert(block.subrange(1, block.len() as int) =~= p);
    } else {
        assert(before.subrange(0, before.len() as int) =~= before);
    }
}

impl ReplaceFmt {
    /// The new text and selection for `selection` in `text`, with a caret
    /// first widened by `mode`.
    pub open spec fn spec_layout(self, text: Seq<char>, selection: Selection, mode: UnselectedApplyMode) -> (
        Seq<char>,
        Selection,
    ) {
        let replacement = mode.spec_expand(text, selection);
        match self {
            ReplaceFmt::Around(p, s) => around_spec(text, p@, s@, selection, replacement),
            ReplaceFmt::StartLine(p) => start_line_spec(text, p@, selection, replacement),
        }
    }

    /// A result for a buffer of `n` characters has a length that fits in a `usize`.
    pub open spec fn fits(self, n: int) -> bool {
        match self {
            ReplaceFmt::Around(p, s) => n + p@.len() + s@.len() <= usize::MAX,
            ReplaceFmt::StartLine(p) => n + 1 + (n + 1) * p@.len() <= usize::MAX,
        }
    }

    fn around_layout(
        text: &Vec<char>,
        prefix: &Vec<char>,
        suffix: &Vec<char>,
        selection: Selection,
        replacement: Selection,
    ) -> (r: (Vec<char>, Selection))
        requires
            replacement_of(text@.len() as int, selection, replacement),
            text@.len() + prefix@.len() + suffix@.len() <= usize::MAX,
        ensures
            (r.0@, r.1) == around_spec(text@, prefix@, suffix@, selection, replacement),
    {
        let ghost before = text@.subrange(0, replacement.start as int);
        let ghost source = text@.subrange(replacement.start as int, replacement.end as int);
        let ghost after = text@.subrange(replacement.end as int, text@.len() as int);
        let (rs, re, n) = (replacement.start, replacement.end, text.len());
        let (pl, sl) = (prefix.len(), suffix.len());
        let mut out: Vec<char> = Vec::new();
        let result_selection;
        if range_ends_with(text, 0, rs, prefix) && range_starts_with(text, re, n, suffix) {
            push_range(&mut out, text, 0, rs - pl);
            push_range(&mut out, text, rs, re);
            push_range(&mut out, text, re + sl, n);
            assert(strip_suffix(before, prefix@) =~= text@.subrange(0, rs - pl));
            assert(strip_prefix(after, suffix@) =~= text@.subrange(re + sl, n as int));
            result_selection = Selection { start: selection.start - pl, end: selection.end - pl };
        } else if re - rs >= pl + sl && range_starts_with(text, rs, re, prefix) && range_ends_with(
            text,
            rs,
            re,
            suffix,
        ) {
            push_range(&mut out, text, 0, rs);
            push_range(&mut out, text, rs + pl, re - sl);
            push_range(&mut out, text, re, n);
            let ghost mid = text@.subrange(rs + pl, re as int);
            assert(strip_prefix(source, prefix@) =~= mid);
            assert(mid.subrange(mid.len() - sl, mid.len() as int) =~= source.subrange(
                source.len() - sl,
                source.len() as int,
            ));
            assert(ends_with(mid, suffix@));
            assert(strip_suffix(strip_prefix(source, prefix@), suffix@) =~= text@.subrange(
                rs + pl,
                re - sl,
            ));
            result_selection = if selection.start == selection.end {
                let pos = if selection.start >= pl && selection.start - pl > rs {
                    selection.start - pl
                } else {
                    rs
                };
                Selection { start: pos, end: pos }
            } else {
                Selection { start: selection.start, end: selection.end - pl - sl }
            };
        } else {
            push_range(&mut out, text, 0, rs);
            push_range(&mut out, prefix, 0, pl);
            push_range(&mut out, text, rs, re);
            push_range(&mut out, suffix, 0, sl);
            push_range(&mut out, text, re, n);
            assert(prefix@.subrange(0, pl as int) =~= prefix@);
            assert(suffix@.subrange(0, sl as int) =~= suffix@);
            result_selection = Selection { start: selection.start + pl, end: selection.end + pl };
        }
        (out, result_selection)
    }

    fn start_line_layout(
        text: &Vec<char>,
        prefix: &Vec<char>,
        selection: Selection,
        replacement: Selection,
    ) -> (r: (Vec<char>, Selection))
        requires
            replacement_of(text@.len() as int, selection, replacement),
            text@.len() + 1 + (text@.len() + 1) * prefix@.len() <= usize::MAX,
        ensures
            (r.0@, r.1) == start_line_spec(text@, prefix@, selection, replacement),
    {
        let ghost before = text@.subrange(0, replacement.start as int);
        let ghost source = text@.subrange(replacement.start as int, replacement.end as int);
        let (rs, re) = (replacement.start, replacement.end);
        let pl = prefix.len();
        let lines = split_lines(text, rs, re);
        let lc = lines.len();
        let ghost ls = lines_of(source);
        proof {
            lemma_lines_shape(source);
            let n = text@.len();
            assert(pl * lc <= (n + 1) * pl) by (nonlinear_arith)
                requires
                    lc <= n + 1,
            ;
            assert(pl <= pl * lc) by (nonlinear_arith)
                requires
                    lc >= 1,
            ;
        }
        let shrink = pl * lc;
        let prefixed = all_but_first_prefixed(&lines, prefix);
        let mut block: Vec<char> = Vec::new();
        block.push('\n');
        push_range(&mut block, prefix, 0, pl);
        assert(prefix@.subrange(0, pl as int) =~= prefix@);
        assert(block@ =~= seq!['\n'] + prefix@);
        let line_start = rs == 0 || text[rs - 1] == '\n';
        assert(line_start == at_line_start(before));

        if prefixed && (range_ends_with(text, 0, rs, &block) || range_equals(text, 0, rs, prefix)) {
            proof {
                lemma_ends_with_block(before, prefix@);
            }
            let out = rebuild(text, rs - pl, false, &strip_each_line(&lines, prefix, 1), re);
            let st = selection.start - pl;
            let en = if selection.end >= shrink && selection.end - shrink >= st {
                selection.end - shrink
            } else {
                st
            };
            (out, Selection { start: st, end: en })
        } else if prefixed && line_start && range_starts_with(text, rs, re, prefix) {
            let out = rebuild(text, rs, false, &strip_each_line(&lines, prefix, 0), re);
            if selection.start == selection.end {
                let back = selection.start - rs;
                let d = if pl <= back {
                    pl
                } else {
                    back
                };
                (out, Selection { start: selection.start - d, end: selection.end - d })
            } else {
                let en = if selection.end >= shrink && selection.end - shrink >= selection.start {
                    selection.end - shrink
                } else {
                    selection.start
                };
                (out, Selection { start: selection.start, end: en })
            }
        } else if prefixed && range_starts_with(text, rs, re, &block) {
            let out = rebuild(text, rs, false, &strip_each_line(&lines, prefix, 0), re);
            let st = if selection.start >= pl {
                selection.start - pl
            } else {
                0
            };
            let en = if selection.end >= shrink && selection.end - shrink >= st {
                selection.end - shrink
            } else {
                st
            };
            (out, Selection { start: st, end: en })
        } else {
            let nl: usize = if line_start {
                0
            } else {
                1
            };
            let out = rebuild(text, rs, !line_start, &prefix_each_line(&lines, prefix), re);
            (out, Selection { start: selection.start + nl + pl, end: selection.end + nl + shrink })
        }
    }

    /// Applies the operation to `text` at `selection`; a caret is first
    /// widened into a working range by `mode`. Returns the new text and the
    /// new selection.
    pub fn layout(&self, text: String, selection: Selection, mode: UnselectedApplyMode) -> (r: (
        String,
        Selection,
    ))
        requires
            selection.valid_in(text@.len() as int),
            self.fits(text@.len() as int),
        ensures
            (r.0@, r.1) == self.spec_layout(text@, selection, mode),
    {
        let chars = chars_of(text.as_str());
        let replacement = mode.expand(&chars, selection);
        let (out, result_selection) = match self {
            ReplaceFmt::Around(prefix, suffix) => Self::around_layout(
                &chars,
                &chars_of(prefix.as_str()),
                &chars_of(suffix.as_str()),
                selection,
                replacement,
            ),
            ReplaceFmt::StartLine(prefix) => Self::start_line_layout(
                &chars,
                &chars_of(prefix.as_str()),
                selection,
                replacement,
            ),
        };
        (string_of(&out), result_selection)
    }
}

} // verus!
