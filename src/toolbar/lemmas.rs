//! What the engine guarantees across calls and across all inputs.
use vstd::prelude::*;

use super::{
    around_spec, at_line_start, min_of, replacement_of, rest_prefixed, start_line_spec,
    ReplaceFmt, Selection, UnselectedApplyMode,
};
use crate::text::{
    ends_with, join_lines, lemma_lines_of_join, lemma_lines_shape, lines_of, prefix_lines,
    single_line, starts_with, strip_lines, strip_prefix, strip_suffix,
};

verus! {

/// The left scan stops at the offset just after a start boundary (or at 0),
/// and passes no start boundary on its way from `c`.
pub proof fn lemma_scan_start(mode: UnselectedApplyMode, text: Seq<char>, c: int)
    requires
        0 <= c <= text.len(),
    ensures
        0 <= mode.scan_start(text, c) <= c,
        mode.scan_start(text, c) == 0 || mode.start_boundary(text[mode.scan_start(text, c) - 1]),
        forall|j: int| mode.scan_start(text, c) <= j < c ==> !mode.start_boundary(#[trigger] text[j]),
    decreases c,
{
    if c > 0 && !mode.start_boundary(text[c - 1]) {
        lemma_scan_start(mode, text, c - 1);
    }
}

/// The right scan stops at an end boundary (or at the end of the text), and
/// passes no end boundary on its way from `c`.
pub proof fn lemma_scan_end(mode: UnselectedApplyMode, text: Seq<char>, c: int)
    requires
        0 <= c <= text.len(),
    ensures
        c <= mode.scan_end(text, c) <= text.len(),
        mode.scan_end(text, c) == text.len() || mode.end_boundary(text[mode.scan_end(text, c)]),
        forall|j: int| c <= j < mode.scan_end(text, c) ==> !mode.end_boundary(#[trigger] text[j]),
    decreases text.len() - c,
{
    if c < text.len() && !mode.end_boundary(text[c]) {
        lemma_scan_end(mode, text, c + 1);
    }
}

/// The left scan from `c` ends at `a` where nothing between them is a start
/// boundary and `a` follows one (or is 0).
pub proof fn lemma_scan_start_at(mode: UnselectedApplyMode, text: Seq<char>, a: int, c: int)
    requires
        0 <= a <= c <= text.len(),
        a == 0 || mode.start_boundary(text[a - 1]),
        forall|j: int| a <= j < c ==> !mode.start_boundary(#[trigger] text[j]),
    ensures
        mode.scan_start(text, c) == a,
    decreases c - a,
{
    if c > a {
        assert(!mode.start_boundary(text[c - 1]));
        lemma_scan_start_at(mode, text, a, c - 1);
    }
}

/// The right scan from `c` ends at `e` where nothing between them is an end
/// boundary and `e` is one (or the end of the text).
pub proof fn lemma_scan_end_at(mode: UnselectedApplyMode, text: Seq<char>, c: int, e: int)
    requires
        0 <= c <= e <= text.len(),
        e == text.len() || mode.end_boundary(text[e]),
        forall|j: int| c <= j < e ==> !mode.end_boundary(#[trigger] text[j]),
    ensures
        mode.scan_end(text, c) == e,
    decreases e - c,
{
    if c < e {
        assert(!mode.end_boundary(text[c]));
        lemma_scan_end_at(mode, text, c + 1, e);
    }
}

/// The working range holds the selection, and the range widened around a
/// caret holds no line break.
pub proof fn lemma_expand(mode: UnselectedApplyMode, text: Seq<char>, selection: Selection)
    requires
        selection.valid_in(text.len() as int),
        text.len() <= usize::MAX,
    ensures
        replacement_of(text.len() as int, selection, mode.spec_expand(text, selection)),
        selection.start == selection.end ==> single_line(
            text.subrange(
                mode.spec_expand(text, selection).start as int,
                mode.spec_expand(text, selection).end as int,
            ),
        ),
{
    if selection.start == selection.end {
        let c = selection.start as int;
        lemma_scan_start(mode, text, c);
        lemma_scan_end(mode, text, c);
        let r = mode.spec_expand(text, selection);
        let source = text.subrange(r.start as int, r.end as int);
        assert forall|i: int| 0 <= i < source.len() implies source[i] != '\n' by {
            let j = r.start + i;
            if j < c {
                assert(!mode.start_boundary(text[j]));
            } else {
                assert(!mode.end_boundary(text[j]));
            }
        }
    }
}

/// Joining longer lines gives a longer text: where each line from index `k`
/// on lost at most `d` characters and the others none, the joined text lost at
/// most `d` for each of those lines.
pub proof fn lemma_join_len_bound(a: Seq<Seq<char>>, b: Seq<Seq<char>>, d: int, k: int)
    requires
        a.len() == b.len(),
        a.len() >= 1,
        0 <= k <= 1,
        d >= 0,
        forall|i: int| 0 <= i < a.len() && i >= k ==> #[trigger] b[i].len() + d >= a[i].len(),
        forall|i: int| 0 <= i < a.len() && i < k ==> #[trigger] b[i].len() >= a[i].len(),
    ensures
        join_lines(b).len() + d * (a.len() - k) >= join_lines(a).len(),
    decreases a.len(),
{
    let n = a.len() as int;
    if n == 1 {
        if k == 0 {
            assert(d * (a.len() - k) == d);
        } else {
            assert(a.len() - k == 0);
            assert(d * (a.len() - k) == 0) by (nonlinear_arith)
                requires
                    a.len() - k == 0,
            ;
        }
    } else {
        let (a0, b0) = (a.drop_last(), b.drop_last());
        assert forall|i: int| 0 <= i < a0.len() && i >= k implies #[trigger] b0[i].len() + d
            >= a0[i].len() by {
            assert(b0[i] == b[i] && a0[i] == a[i]);
        }
        assert forall|i: int| 0 <= i < a0.len() && i < k implies #[trigger] b0[i].len()
            >= a0[i].len() by {
            assert(b0[i] == b[i] && a0[i] == a[i]);
        }
        lemma_join_len_bound(a0, b0, d, k);
        assert(b[n - 1].len() + d >= a[n - 1].len());
        assert(join_lines(b) == join_lines(b0) + seq!['\n'] + b.last());
        assert(join_lines(a) == join_lines(a0) + seq!['\n'] + a.last());
        assert(d * (n - k) == d * (n - 1 - k) + d) by (nonlinear_arith);
    }
}

/// Putting `p` in front of each line makes the joined text longer by the
/// length of `p` for each line.
pub proof fn lemma_join_prefix_len(ls: Seq<Seq<char>>, p: Seq<char>)
    requires
        ls.len() >= 1,
    ensures
        join_lines(prefix_lines(ls, p)).len() == join_lines(ls).len() + p.len() * ls.len(),
    decreases ls.len(),
{
    let n = ls.len() as int;
    if n > 1 {
        lemma_join_prefix_len(ls.drop_last(), p);
        assert(prefix_lines(ls, p).drop_last() =~= prefix_lines(ls.drop_last(), p));
        assert(p.len() * n == p.len() * (n - 1) + p.len()) by (nonlinear_arith);
    }
}

/// The lines of a text without a line break are the text alone.
pub proof fn lemma_lines_of_single_line(s: Seq<char>)
    requires
        single_line(s),
    ensures
        lines_of(s) == seq![s],
{
    lemma_lines_of_join(seq![s]);
}

/// Taking `p` off lines from index `k` on shortens each by at most `p`.
proof fn lemma_strip_lines_len(ls: Seq<Seq<char>>, p: Seq<char>, k: int)
    requires
        ls.len() >= 1,
        0 <= k <= 1,
    ensures
        join_lines(strip_lines(ls, p, k)).len() + p.len() * (ls.len() - k) >= join_lines(ls).len(),
{
    let b = strip_lines(ls, p, k);
    lemma_join_len_bound(ls, b, p.len() as int, k);
}

/// The selection that a layout produces runs forwards, and lies within the new
/// text: but for a caret whose range is unwrapped from inside while it stands
/// closer to the end of the buffer than the closing marker is long.
pub open spec fn caret_past_inner_suffix(
    fmt: ReplaceFmt,
    text: Seq<char>,
    selection: Selection,
    mode: UnselectedApplyMode,
) -> bool {
    match fmt {
        ReplaceFmt::Around(p, s) => {
            let r = mode.spec_expand(text, selection);
            let before = text.subrange(0, r.start as int);
            let source = text.subrange(r.start as int, r.end as int);
            let after = text.subrange(r.end as int, text.len() as int);
            &&& selection.start == selection.end
            &&& !(ends_with(before, p@) && starts_with(after, s@))
            &&& starts_with(source, p@) && ends_with(source, s@)
            &&& source.len() >= p@.len() + s@.len()
            &&& selection.start + s@.len() > text.len()
        },
        ReplaceFmt::StartLine(_) => false,
    }
}

/// Every selection that a layout produces runs forwards; it lies within the
/// new text, as character offsets, except in the one case that
/// `caret_past_inner_suffix` names.
pub proof fn lemma_layout_selection_in_bounds(
    fmt: ReplaceFmt,
    text: Seq<char>,
    selection: Selection,
    mode: UnselectedApplyMode,
)
    requires
        selection.valid_in(text.len() as int),
        fmt.fits(text.len() as int),
    ensures
        fmt.spec_layout(text, selection, mode).1.start <= fmt.spec_layout(text, selection, mode).1.end,
        !caret_past_inner_suffix(fmt, text, selection, mode) ==> fmt.spec_layout(
            text,
            selection,
            mode,
        ).1.end <= fmt.spec_layout(text, selection, mode).0.len(),
{
    lemma_expand(mode, text, selection);
    let rep = mode.spec_expand(text, selection);
    match fmt {
        ReplaceFmt::Around(p, s) => {
        },
        ReplaceFmt::StartLine(p) => {
            lemma_start_line_in_bounds(text, p@, selection, rep);
        },
    }
}

proof fn lemma_start_line_in_bounds(text: Seq<char>, p: Seq<char>, selection: Selection, rep: Selection)
    requires
        replacement_of(text.len() as int, selection, rep),
        selection.start == selection.end ==> single_line(
            text.subrange(rep.start as int, rep.end as int),
        ),
        text.len() + 1 + (text.len() + 1) * p.len() <= usize::MAX,
    ensures
        start_line_spec(text, p, selection, rep).1.start <= start_line_spec(text, p, selection, rep).1.end,
        start_line_spec(text, p, selection, rep).1.end <= start_line_spec(text, p, selection, rep).0.len(),
{
    let before = text.subrange(0, rep.start as int);
    let source = text.subrange(rep.start as int, rep.end as int);
    let after = text.subrange(rep.end as int, text.len() as int);
    let ls = lines_of(source);
    let n = ls.len() as int;
    let pl = p.len() as int;
    let block = seq!['\n'] + p;
    let big_n = text.len() as int;
    lemma_lines_shape(source);
    crate::text::lemma_join_lines_of(source);
    if selection.start == selection.end {
        lemma_lines_of_single_line(source);
    }
    assert(pl * n <= (big_n + 1) * pl) by (nonlinear_arith)
        requires
            n <= big_n + 1,
            pl >= 0,
    ;
    assert(pl <= pl * n) by (nonlinear_arith)
        requires
            n >= 1,
            pl >= 0,
    ;
    if rest_prefixed(ls, p) && (ends_with(before, block) || before == p) {
        super::lemma_ends_with_block(before, p);
        lemma_strip_lines_len(ls, p, 1);
        assert(pl * (n - 1) == pl * n - pl) by (nonlinear_arith);
    } else if rest_prefixed(ls, p) && at_line_start(before) && starts_with(source, p) {
        lemma_strip_lines_len(ls, p, 0);
    } else if rest_prefixed(ls, p) && starts_with(source, block) {
        lemma_strip_lines_len(ls, p, 0);
    } else {
        lemma_join_prefix_len(ls, p);
    }
}

/// The symmetric wrap inserts its markers: the range is wrapped neither from
/// outside nor from inside.
pub open spec fn around_inserts(
    text: Seq<char>,
    p: Seq<char>,
    s: Seq<char>,
    selection: Selection,
    mode: UnselectedApplyMode,
) -> bool {
    let r = mode.spec_expand(text, selection);
    let before = text.subrange(0, r.start as int);
    let source = text.subrange(r.start as int, r.end as int);
    let after = text.subrange(r.end as int, text.len() as int);
    &&& !(ends_with(before, p) && starts_with(after, s))
    &&& !(starts_with(source, p) && ends_with(source, s) && source.len() >= p.len() + s.len())
}

/// No character of `m` is a start boundary of the mode.
pub open spec fn no_start_boundary(mode: UnselectedApplyMode, m: Seq<char>) -> bool {
    forall|i: int| 0 <= i < m.len() ==> !mode.start_boundary(#[trigger] m[i])
}

/// No character of `m` is an end boundary of the mode.
pub open spec fn no_end_boundary(mode: UnselectedApplyMode, m: Seq<char>) -> bool {
    forall|i: int| 0 <= i < m.len() ==> !mode.end_boundary(#[trigger] m[i])
}

/// Toggling a symmetric wrap on and then off restores the text and the
/// selection. Where the first application inserts the markers, applying the
/// same operation to its result gives back the text and selection it started from.
/// For a caret the second application must widen to the wrapped range again,
/// so the prefix holds no start boundary and the suffix no end boundary.
pub proof fn lemma_around_round_trip(
    p: Seq<char>,
    s: Seq<char>,
    text: Seq<char>,
    selection: Selection,
    mode: UnselectedApplyMode,
)
    requires
        selection.valid_in(text.len() as int),
        text.len() + p.len() + s.len() <= usize::MAX,
        around_inserts(text, p, s, selection, mode),
        selection.start == selection.end ==> no_start_boundary(mode, p) && no_end_boundary(mode, s),
    ensures
        ({
            let once = around_spec(text, p, s, selection, mode.spec_expand(text, selection));
            around_spec(once.0, p, s, once.1, mode.spec_expand(once.0, once.1)) == (text, selection)
        }),
        around_spec(text, p, s, selection, mode.spec_expand(text, selection)).0.len() == text.len()
            + p.len() + s.len(),
{
    lemma_expand(mode, text, selection);
    let r = mode.spec_expand(text, selection);
    let before = text.subrange(0, r.start as int);
    let source = text.subrange(r.start as int, r.end as int);
    let after = text.subrange(r.end as int, text.len() as int);
    assert(around_spec(text, p, s, selection, r).0 == before + p + source + s + after);
    if selection.start != selection.end {
        lemma_around_round_trip_range(p, s, text, selection, mode);
    } else {
        lemma_around_round_trip_caret(p, s, text, selection, mode);
    }
}

proof fn lemma_around_round_trip_range(
    p: Seq<char>,
    s: Seq<char>,
    text: Seq<char>,
    selection: Selection,
    mode: UnselectedApplyMode,
)
    requires
        selection.valid_in(text.len() as int),
        selection.start != selection.end,
        text.len() + p.len() + s.len() <= usize::MAX,
        around_inserts(text, p, s, selection, mode),
    ensures
        ({
            let once = around_spec(text, p, s, selection, mode.spec_expand(text, selection));
            around_spec(once.0, p, s, once.1, mode.spec_expand(once.0, once.1)) == (text, selection)
        }),
{
    let (rs, re) = (selection.start as int, selection.end as int);
    let before = text.subrange(0, rs);
    let source = text.subrange(rs, re);
    let after = text.subrange(re, text.len() as int);
    assert(text =~= before + source + after);
    let t1 = before + p + source + s + after;
    let (pl, sl) = (p.len() as int, s.len() as int);
    let sel1 = Selection { start: (rs + pl) as usize, end: (re + pl) as usize };
    assert(around_spec(text, p, s, selection, selection) == (t1, sel1));
    assert(mode.spec_expand(t1, sel1) == sel1);
    assert(t1.subrange(0, rs + pl) =~= before + p);
    assert(t1.subrange(rs + pl, re + pl) =~= source);
    assert(t1.subrange(re + pl, t1.len() as int) =~= s + after);
    assert((before + p).subrange(before.len() as int, (before + p).len() as int) =~= p);
    assert((s + after).subrange(0, sl) =~= s);
    assert(strip_suffix(before + p, p) =~= before);
    assert(strip_prefix(s + after, s) =~= after);
}

#[verifier::rlimit(40)]
proof fn lemma_around_round_trip_caret(
    p: Seq<char>,
    s: Seq<char>,
    text: Seq<char>,
    selection: Selection,
    mode: UnselectedApplyMode,
)
    requires
        selection.valid_in(text.len() as int),
        selection.start == selection.end,
        text.len() + p.len() + s.len() <= usize::MAX,
        around_inserts(text, p, s, selection, mode),
        no_start_boundary(mode, p),
        no_end_boundary(mode, s),
    ensures
        ({
            let once = around_spec(text, p, s, selection, mode.spec_expand(text, selection));
            around_spec(once.0, p, s, once.1, mode.spec_expand(once.0, once.1)) == (text, selection)
        }),
{
    lemma_expand(mode, text, selection);
    let r = mode.spec_expand(text, selection);
    let (rs, re) = (r.start as int, r.end as int);
    let before = text.subrange(0, rs);
    let source = text.subrange(rs, re);
    let after = text.subrange(re, text.len() as int);
    assert(text =~= before + source + after);
    let t1 = before + p + source + s + after;
    let c = selection.start as int;
    let sel1 = Selection { start: (c + p.len()) as usize, end: (c + p.len()) as usize };
    assert(around_spec(text, p, s, selection, r) == (t1, sel1));
    lemma_around_caret_widen(p, s, text, selection, mode);
    let r1 = Selection { start: rs as usize, end: (re + p.len() + s.len()) as usize };
    assert(mode.spec_expand(t1, sel1) == r1);
    lemma_around_strip_inner(before, source, after, p, s, c);
}

/// After the markers went in around a caret's range, the caret, moved past
/// the prefix, widens to the whole wrapped range.
#[verifier::rlimit(40)]
proof fn lemma_around_caret_widen(
    p: Seq<char>,
    s: Seq<char>,
    text: Seq<char>,
    selection: Selection,
    mode: UnselectedApplyMode,
)
    requires
        selection.valid_in(text.len() as int),
        selection.start == selection.end,
        text.len() + p.len() + s.len() <= usize::MAX,
        no_start_boundary(mode, p),
        no_end_boundary(mode, s),
    ensures
        ({
            let r = mode.spec_expand(text, selection);
            let t1 = text.subrange(0, r.start as int) + p + text.subrange(r.start as int, r.end as int)
                + s + text.subrange(r.end as int, text.len() as int);
            let c1 = (selection.start + p.len()) as usize;
            mode.spec_expand(t1, Selection { start: c1, end: c1 }) == Selection {
                start: r.start,
                end: (r.end + p.len() + s.len()) as usize,
            }
        }),
{
    lemma_expand(mode, text, selection);
    let r = mode.spec_expand(text, selection);
    let (rs, re) = (r.start as int, r.end as int);
    let t1 = text.subrange(0, rs) + p + text.subrange(rs, re) + s + text.subrange(
        re,
        text.len() as int,
    );
    let (pl, sl) = (p.len() as int, s.len() as int);
    let c = selection.start as int;
    lemma_scan_start(mode, text, c);
    lemma_scan_end(mode, text, c);
    assert forall|j: int| rs <= j < c + pl implies !mode.start_boundary(#[trigger] t1[j]) by {
        if j < rs + pl {
            assert(t1[j] == p[j - rs]);
        } else {
            assert(t1[j] == text[j - pl]);
        }
    }
    if rs > 0 {
        assert(t1[rs - 1] == text[rs - 1]);
    }
    lemma_scan_start_at(mode, t1, rs, c + pl);
    let e = re + pl + sl;
    assert forall|j: int| c + pl <= j < e implies !mode.end_boundary(#[trigger] t1[j]) by {
        if j < re + pl {
            assert(t1[j] == text[j - pl]);
        } else {
            assert(t1[j] == s[j - re - pl]);
        }
    }
    if e < t1.len() {
        assert(t1[e] == text[re]);
    }
    lemma_scan_end_at(mode, t1, c + pl, e);
}

/// Markers just inside a range that is not wrapped from outside come off, and
/// a caret behind the prefix goes back by its length.
proof fn lemma_around_strip_inner(
    before: Seq<char>,
    source: Seq<char>,
    after: Seq<char>,
    p: Seq<char>,
    s: Seq<char>,
    c: int,
)
    requires
        !(ends_with(before, p) && starts_with(after, s)),
        before.len() <= c,
        c + p.len() <= usize::MAX,
        before.len() + p.len() + source.len() + s.len() + after.len() <= usize::MAX,
    ensures
        ({
            let t1 = before + p + source + s + after;
            let rs = before.len();
            let e = rs + p.len() + source.len() + s.len();
            let c1 = (c + p.len()) as usize;
            around_spec(
                t1,
                p,
                s,
                Selection { start: c1, end: c1 },
                Selection { start: rs as usize, end: e as usize },
            ) == (before + source + after, Selection { start: c as usize, end: c as usize })
        }),
{
    let t1 = before + p + source + s + after;
    let (pl, sl) = (p.len() as int, s.len() as int);
    let rs = before.len() as int;
    let mid = p + source + s;
    let e = rs + mid.len();
    assert(t1 =~= before + mid + after);
    assert(t1.subrange(0, rs) =~= before);
    assert(t1.subrange(rs, e) =~= mid);
    assert(t1.subrange(e, t1.len() as int) =~= after);
    assert(mid.subrange(0, pl) =~= p);
    assert(mid.subrange(mid.len() - sl, mid.len() as int) =~= s);
    assert(strip_prefix(mid, p) =~= source + s);
    assert((source + s).subrange((source + s).len() - sl, (source + s).len() as int) =~= s);
    assert(strip_suffix(source + s, s) =~= source);
}

/// The per-line prefixing inserts its prefix, and the working range starts a
/// line: at the start of the buffer or just after a line break.
pub open spec fn start_line_inserts_at_line_start(
    text: Seq<char>,
    p: Seq<char>,
    selection: Selection,
    mode: UnselectedApplyMode,
) -> bool {
    let r = mode.spec_expand(text, selection);
    let before = text.subrange(0, r.start as int);
    let source = text.subrange(r.start as int, r.end as int);
    let ls = lines_of(source);
    let block = seq!['\n'] + p;
    &&& !(rest_prefixed(ls, p) && (ends_with(before, block) || before == p))
    &&& !(rest_prefixed(ls, p) && at_line_start(before) && starts_with(source, p))
    &&& !(rest_prefixed(ls, p) && starts_with(source, block))
    &&& at_line_start(before)
}

/// The lines with `p` in front of each but the first.
pub open spec fn prefix_rest(ls: Seq<Seq<char>>, p: Seq<char>) -> Seq<Seq<char>> {
    Seq::new(ls.len(), |i: int| if i == 0 { ls[0] } else { p + ls[i] })
}

/// Prefixing every line is prefixing the joined text once and every line
/// after the first.
proof fn lemma_join_prefix_lines(ls: Seq<Seq<char>>, p: Seq<char>)
    requires
        ls.len() >= 1,
    ensures
        join_lines(prefix_lines(ls, p)) == p + join_lines(prefix_rest(ls, p)),
    decreases ls.len(),
{
    if ls.len() == 1 {
        assert(join_lines(prefix_rest(ls, p)) == ls[0]);
    } else {
        let init = ls.drop_last();
        lemma_join_prefix_lines(init, p);
        assert(prefix_lines(ls, p).drop_last() =~= prefix_lines(init, p));
        assert(prefix_rest(ls, p).drop_last() =~= prefix_rest(init, p));
        assert(prefix_lines(ls, p).last() == p + ls.last());
        assert(prefix_rest(ls, p).last() == p + ls.last());
        assert(join_lines(prefix_lines(ls, p)) =~= p + join_lines(prefix_rest(ls, p)));
    }
}

/// A prefix of no characters would have made the first application strip.
proof fn lemma_start_line_prefix_not_empty(
    text: Seq<char>,
    p: Seq<char>,
    selection: Selection,
    mode: UnselectedApplyMode,
)
    requires
        start_line_inserts_at_line_start(text, p, selection, mode),
    ensures
        p.len() > 0,
{
    if p.len() == 0 {
        let r = mode.spec_expand(text, selection);
        let before = text.subrange(0, r.start as int);
        let source = text.subrange(r.start as int, r.end as int);
        let ls = lines_of(source);
        assert forall|i: int| 1 <= i < ls.len() implies starts_with(#[trigger] ls[i], p) by {
            assert(ls[i].subrange(0, 0) =~= p);
        }
        assert(seq!['\n'] + p =~= seq!['\n']);
        if before.len() == 0 {
            assert(before =~= p);
        } else {
            assert(before.subrange(before.len() - 1, before.len() as int) =~= seq!['\n']);
        }
    }
}

/// Prefixing the lines of a range, and then applying the same operation to
/// the result, restores the text and the selection, where the range starts a
/// line and the prefix holds no line break. For a caret the second
/// application must widen to the prefixed line again: so the prefix holds no
/// start boundary of the mode, or ends with one.
pub proof fn lemma_start_line_round_trip(
    p: Seq<char>,
    text: Seq<char>,
    selection: Selection,
    mode: UnselectedApplyMode,
)
    requires
        selection.valid_in(text.len() as int),
        text.len() + 1 + (text.len() + 1) * p.len() <= usize::MAX,
        single_line(p),
        start_line_inserts_at_line_start(text, p, selection, mode),
        selection.start == selection.end ==> no_start_boundary(mode, p) || (p.len() > 0
            && mode.start_boundary(p.last())),
    ensures
        ({
            let once = start_line_spec(text, p, selection, mode.spec_expand(text, selection));
            start_line_spec(once.0, p, once.1, mode.spec_expand(once.0, once.1)) == (text, selection)
        }),
        ({
            let once = start_line_spec(text, p, selection, mode.spec_expand(text, selection));
            &&& once.0.len() + 1 <= (text.len() + 1) * (p.len() + 1)
            &&& (text.len() + 1) * (p.len() + 1) * (p.len() + 1) <= usize::MAX ==> once.0.len() + 1
                + (once.0.len() + 1) * p.len() <= usize::MAX
        }),
        ({
            let once = start_line_spec(text, p, selection, mode.spec_expand(text, selection));
            once.1.valid_in(once.0.len() as int)
        }),
{
    lemma_expand(mode, text, selection);
    lemma_start_line_in_bounds(text, p, selection, mode.spec_expand(text, selection));
    lemma_start_line_inserted_len(p, text, selection, mode);
    lemma_start_line_prefix_not_empty(text, p, selection, mode);
    if selection.start != selection.end {
        lemma_start_line_round_trip_range(p, text, selection, mode);
    } else {
        lemma_start_line_round_trip_caret(p, text, selection, mode);
    }
}

proof fn lemma_start_line_round_trip_range(
    p: Seq<char>,
    text: Seq<char>,
    selection: Selection,
    mode: UnselectedApplyMode,
)
    requires
        selection.valid_in(text.len() as int),
        selection.start != selection.end,
        text.len() + 1 + (text.len() + 1) * p.len() <= usize::MAX,
        single_line(p),
        p.len() > 0,
        start_line_inserts_at_line_start(text, p, selection, mode),
    ensures
        ({
            let once = start_line_spec(text, p, selection, mode.spec_expand(text, selection));
            start_line_spec(once.0, p, once.1, mode.spec_expand(once.0, once.1)) == (text, selection)
        }),
{
    let (rs, re) = (selection.start as int, selection.end as int);
    let before = text.subrange(0, rs);
    let source = text.subrange(rs, re);
    let after = text.subrange(re, text.len() as int);
    assert(text =~= before + source + after);
    let ls = lines_of(source);
    let n = ls.len() as int;
    let pl = p.len() as int;
    lemma_lines_shape(source);
    crate::text::lemma_join_lines_of(source);
    lemma_join_prefix_len(ls, p);
    lemma_join_prefix_lines(ls, p);
    let ls2 = prefix_rest(ls, p);
    let j2 = join_lines(ls2);
    assert(pl * n <= (text.len() + 1) * pl) by (nonlinear_arith)
        requires
            n <= text.len() + 1,
            pl >= 0,
    ;
    let t1 = before + p + j2 + after;
    let sel1 = Selection { start: (rs + pl) as usize, end: (re + pl * n) as usize };
    assert(before + (Seq::<char>::empty()) + join_lines(prefix_lines(ls, p)) + after =~= t1);
    assert(start_line_spec(text, p, selection, selection) == (t1, sel1));
    assert(mode.spec_expand(t1, sel1) == sel1);
    assert(j2.len() == source.len() + pl * n - pl);
    assert(t1.subrange(0, rs + pl) =~= before + p);
    assert(t1.subrange(rs + pl, re + pl * n) =~= j2);
    assert(t1.subrange(re + pl * n, t1.len() as int) =~= after);
    assert forall|i: int| 0 <= i < ls2.len() implies single_line(#[trigger] ls2[i]) by {
        assert(single_line(ls[i]));
        if i > 0 {
            assert(ls2[i] == p + ls[i]);
        }
    }
    lemma_lines_of_join(ls2);
    assert forall|i: int| 1 <= i < ls2.len() implies starts_with(#[trigger] ls2[i], p) by {
        assert(ls2[i].subrange(0, pl) =~= p);
    }
    assert(strip_lines(ls2, p, 1) =~= ls) by {
        assert forall|i: int| 1 <= i < ls2.len() implies strip_prefix(#[trigger] ls2[i], p) == ls[i] by {
            assert(ls2[i].subrange(0, pl) =~= p);
            assert(ls2[i].subrange(pl, ls2[i].len() as int) =~= ls[i]);
        }
    }
    let b1 = before + p;
    let block = seq!['\n'] + p;
    if before.len() == 0 {
        assert(b1 =~= p);
    } else {
        assert(b1.subrange(b1.len() - block.len(), b1.len() as int) =~= block);
    }
    super::lemma_ends_with_block(b1, p);
    assert(b1.subrange(0, b1.len() - pl) =~= before);
}

#[verifier::rlimit(40)]
proof fn lemma_start_line_round_trip_caret(
    p: Seq<char>,
    text: Seq<char>,
    selection: Selection,
    mode: UnselectedApplyMode,
)
    requires
        selection.valid_in(text.len() as int),
        selection.start == selection.end,
        text.len() + 1 + (text.len() + 1) * p.len() <= usize::MAX,
        single_line(p),
        p.len() > 0,
        start_line_inserts_at_line_start(text, p, selection, mode),
        no_start_boundary(mode, p) || mode.start_boundary(p.last()),
    ensures
        ({
            let once = start_line_spec(text, p, selection, mode.spec_expand(text, selection));
            start_line_spec(once.0, p, once.1, mode.spec_expand(once.0, once.1)) == (text, selection)
        }),
{
    lemma_expand(mode, text, selection);
    let r = mode.spec_expand(text, selection);
    let (rs, re) = (r.start as int, r.end as int);
    let before = text.subrange(0, rs);
    let source = text.subrange(rs, re);
    let after = text.subrange(re, text.len() as int);
    let pl = p.len() as int;
    let c = selection.start as int;
    assert(text.len() + 1 + pl <= usize::MAX) by {
        assert((text.len() + 1) * pl >= pl) by (nonlinear_arith)
            requires
                pl >= 0,
        ;
    }
    lemma_start_line_insert_caret(text, p, selection, r);
    let t1 = before + p + source + after;
    let c1 = (c + pl) as usize;
    let sel1 = Selection { start: c1, end: c1 };
    let once = start_line_spec(text, p, selection, r);
    assert(once.0 == t1 && once.1 == sel1);
    lemma_start_line_caret_widen(p, text, selection, mode);
    let r1 = mode.spec_expand(t1, sel1);
    assert(text =~= before + source + after);
    if no_start_boundary(mode, p) {
        assert(r1 == Selection { start: rs as usize, end: (rs + pl + source.len()) as usize });
        lemma_start_line_strip_fresh(before, source, after, p, c);
    } else {
        assert(r1 == Selection { start: (rs + pl) as usize, end: (rs + pl + source.len()) as usize });
        lemma_start_line_strip_continued(before, source, after, p, c);
    }
}

/// After the prefix went in at a caret's line, the caret, moved past the
/// prefix, widens to the prefixed line, or to the line after the prefix where
/// the prefix ends with a start boundary.
#[verifier::rlimit(40)]
proof fn lemma_start_line_caret_widen(
    p: Seq<char>,
    text: Seq<char>,
    selection: Selection,
    mode: UnselectedApplyMode,
)
    requires
        selection.valid_in(text.len() as int),
        selection.start == selection.end,
        text.len() + 1 + p.len() <= usize::MAX,
        p.len() > 0,
        at_line_start(text.subrange(0, mode.spec_expand(text, selection).start as int)),
    ensures
        ({
            let r = mode.spec_expand(text, selection);
            let t1 = text.subrange(0, r.start as int) + p + text.subrange(r.start as int, r.end as int)
                + text.subrange(r.end as int, text.len() as int);
            let c1 = (selection.start + p.len()) as usize;
            let r1 = mode.spec_expand(t1, Selection { start: c1, end: c1 });
            &&& r1.end == r.end + p.len()
            &&& no_start_boundary(mode, p) ==> r1.start == r.start
            &&& mode.start_boundary(p.last()) ==> r1.start == r.start + p.len()
        }),
{
    lemma_expand(mode, text, selection);
    let r = mode.spec_expand(text, selection);
    let (rs, re) = (r.start as int, r.end as int);
    let t1 = text.subrange(0, rs) + p + text.subrange(rs, re) + text.subrange(re, text.len() as int);
    let pl = p.len() as int;
    let c = selection.start as int;
    lemma_scan_start(mode, text, c);
    lemma_scan_end(mode, text, c);
    assert forall|j: int| c + pl <= j < re + pl implies !mode.end_boundary(#[trigger] t1[j]) by {
        assert(t1[j] == text[j - pl]);
    }
    if re + pl < t1.len() {
        assert(t1[re + pl] == text[re]);
    }
    lemma_scan_end_at(mode, t1, c + pl, re + pl);
    assert forall|j: int| rs + pl <= j < c + pl implies !mode.start_boundary(#[trigger] t1[j]) by {
        assert(t1[j] == text[j - pl]);
    }
    if no_start_boundary(mode, p) {
        assert forall|j: int| rs <= j < c + pl implies !mode.start_boundary(#[trigger] t1[j]) by {
            if j < rs + pl {
                assert(t1[j] == p[j - rs]);
            }
        }
        if rs > 0 {
            assert(t1[rs - 1] == text[rs - 1]);
        }
        lemma_scan_start_at(mode, t1, rs, c + pl);
    }
    if mode.start_boundary(p.last()) {
        assert(t1[rs + pl - 1] == p.last());
        lemma_scan_start_at(mode, t1, rs + pl, c + pl);
    }
}

/// The caret's line, prefixed and selected from its start, loses its prefix.
proof fn lemma_start_line_strip_fresh(
    before: Seq<char>,
    source: Seq<char>,
    after: Seq<char>,
    p: Seq<char>,
    c: int,
)
    requires
        at_line_start(before),
        single_line(p),
        single_line(source),
        p.len() > 0,
        before.len() <= c,
        c + p.len() <= usize::MAX,
        before.len() + p.len() + source.len() + after.len() <= usize::MAX,
    ensures
        ({
            let t1 = before + p + source + after;
            let rs = before.len();
            let c1 = (c + p.len()) as usize;
            start_line_spec(
                t1,
                p,
                Selection { start: c1, end: c1 },
                Selection { start: rs as usize, end: (rs + p.len() + source.len()) as usize },
            ) == (before + source + after, Selection { start: c as usize, end: c as usize })
        }),
{
    let t1 = before + p + source + after;
    let rs = before.len() as int;
    let pl = p.len() as int;
    let src = p + source;
    let e = rs + src.len();
    assert(t1.subrange(0, rs) =~= before);
    assert(t1.subrange(rs, e) =~= src);
    assert(t1.subrange(e, t1.len() as int) =~= after);
    assert(single_line(src));
    lemma_lines_of_single_line(src);
    let block = seq!['\n'] + p;
    assert(!ends_with(before, block)) by {
        if ends_with(before, block) {
            assert(before.last() == block.last());
            assert(block.last() == p.last());
            assert(p[pl - 1] != '\n');
        }
    }
    assert(before != p) by {
        if before == p {
            assert(before.last() == p[pl - 1]);
        }
    }
    assert(src.subrange(0, pl) =~= p);
    assert(strip_lines(seq![src], p, 0) =~= seq![source]) by {
        assert(src.subrange(pl, src.len() as int) =~= source);
    }
    assert(join_lines(seq![source]) == source);
    assert(min_of(pl, c + pl - rs) == pl);
}

/// The caret's line, selected after its prefix, loses the prefix before it.
proof fn lemma_start_line_strip_continued(
    before: Seq<char>,
    source: Seq<char>,
    after: Seq<char>,
    p: Seq<char>,
    c: int,
)
    requires
        at_line_start(before),
        single_line(source),
        before.len() <= c,
        c + p.len() <= usize::MAX,
        before.len() + p.len() + source.len() + after.len() <= usize::MAX,
    ensures
        ({
            let t1 = before + p + source + after;
            let rs = before.len() + p.len();
            let c1 = (c + p.len()) as usize;
            start_line_spec(
                t1,
                p,
                Selection { start: c1, end: c1 },
                Selection { start: rs as usize, end: (rs + source.len()) as usize },
            ) == (before + source + after, Selection { start: c as usize, end: c as usize })
        }),
{
    let t1 = before + p + source + after;
    let pl = p.len() as int;
    let b1 = before + p;
    let rs = b1.len() as int;
    let e = rs + source.len();
    assert(t1.subrange(0, rs) =~= b1);
    assert(t1.subrange(rs, e) =~= source);
    assert(t1.subrange(e, t1.len() as int) =~= after);
    lemma_lines_of_single_line(source);
    let block = seq!['\n'] + p;
    if before.len() == 0 {
        assert(b1 =~= p);
    } else {
        assert(b1.subrange(b1.len() - block.len(), b1.len() as int) =~= block);
    }
    super::lemma_ends_with_block(b1, p);
    assert(b1.subrange(0, b1.len() - pl) =~= before);
    assert(strip_lines(seq![source], p, 1) =~= seq![source]);
    assert(join_lines(seq![source]) == source);
    assert(pl * 1 == pl);
}

/// Prefixing the line of a caret inserts the prefix once and moves the caret
/// past it.
proof fn lemma_start_line_insert_caret(
    text: Seq<char>,
    p: Seq<char>,
    selection: Selection,
    r: Selection,
)
    requires
        replacement_of(text.len() as int, selection, r),
        selection.start == selection.end,
        selection.start + p.len() <= usize::MAX,
        single_line(text.subrange(r.start as int, r.end as int)),
        ({
            let before = text.subrange(0, r.start as int);
            let source = text.subrange(r.start as int, r.end as int);
            let ls = lines_of(source);
            let block = seq!['\n'] + p;
            &&& !(rest_prefixed(ls, p) && (ends_with(before, block) || before == p))
            &&& !(rest_prefixed(ls, p) && at_line_start(before) && starts_with(source, p))
            &&& !(rest_prefixed(ls, p) && starts_with(source, block))
            &&& at_line_start(before)
        }),
    ensures
        start_line_spec(text, p, selection, r) == (
            text.subrange(0, r.start as int) + p + text.subrange(r.start as int, r.end as int)
                + text.subrange(r.end as int, text.len() as int),
            Selection {
                start: (selection.start + p.len()) as usize,
                end: (selection.start + p.len()) as usize,
            },
        ),
{
    let before = text.subrange(0, r.start as int);
    let source = text.subrange(r.start as int, r.end as int);
    let after = text.subrange(r.end as int, text.len() as int);
    lemma_lines_of_single_line(source);
    let ls = seq![source];
    assert(prefix_lines(ls, p) =~= seq![p + source]);
    assert(join_lines(prefix_lines(ls, p)) == p + source);
    assert(before + (Seq::<char>::empty()) + join_lines(prefix_lines(ls, p)) + after =~= before + p
        + source + after);
    assert(p.len() * 1 == p.len());
}

/// A caret at the start of the buffer, widened to its line, starts at 0 and
/// ends at the first line break, or at the end of a buffer without one.
pub proof fn lemma_line_caret_at_buffer_start(text: Seq<char>)
    requires
        text.len() <= usize::MAX,
    ensures
        ({
            let r = UnselectedApplyMode::Line.spec_expand(text, Selection { start: 0, end: 0 });
            &&& r.start == 0
            &&& r.end <= text.len()
            &&& r.end == text.len() || text[r.end as int] == '\n'
            &&& single_line(text.subrange(0, r.end as int))
        }),
{
    let mode = UnselectedApplyMode::Line;
    lemma_scan_end(mode, text, 0);
    let e = mode.scan_end(text, 0);
    assert forall|i: int| 0 <= i < e implies text.subrange(0, e)[i] != '\n' by {
        assert(!mode.end_boundary(text[i]));
    }
}

/// Toggling a symmetric wrap off and then on restores the text and the
/// selection: where the first application strips markers just outside a
/// selected range, and the second one, on its result, inserts them again.
pub proof fn lemma_around_unwrap_round_trip(
    p: Seq<char>,
    s: Seq<char>,
    text: Seq<char>,
    selection: Selection,
    mode: UnselectedApplyMode,
)
    requires
        selection.valid_in(text.len() as int),
        selection.start != selection.end,
        text.len() + p.len() + s.len() <= usize::MAX,
        ends_with(text.subrange(0, selection.start as int), p),
        starts_with(text.subrange(selection.end as int, text.len() as int), s),
        ({
            let once = around_spec(text, p, s, selection, mode.spec_expand(text, selection));
            around_inserts(once.0, p, s, once.1, mode)
        }),
    ensures
        ({
            let once = around_spec(text, p, s, selection, mode.spec_expand(text, selection));
            around_spec(once.0, p, s, once.1, mode.spec_expand(once.0, once.1)) == (text, selection)
        }),
{
    let (ss, se) = (selection.start as int, selection.end as int);
    let (pl, sl) = (p.len() as int, s.len() as int);
    let before = text.subrange(0, ss);
    let source = text.subrange(ss, se);
    let after = text.subrange(se, text.len() as int);
    let b0 = before.subrange(0, ss - pl);
    let a0 = after.subrange(sl, after.len() as int);
    assert(strip_suffix(before, p) == b0);
    assert(strip_prefix(after, s) == a0);
    let t1 = b0 + source + a0;
    let sel1 = Selection { start: (ss - pl) as usize, end: (se - pl) as usize };
    assert(around_spec(text, p, s, selection, selection) == (t1, sel1));
    assert(mode.spec_expand(t1, sel1) == sel1);
    assert(t1.subrange(0, ss - pl) =~= b0);
    assert(t1.subrange(ss - pl, se - pl) =~= source);
    assert(t1.subrange(se - pl, t1.len() as int) =~= a0);
    assert(before =~= b0 + p);
    assert(after =~= s + a0);
    assert(text =~= b0 + p + source + s + a0);
}

/// The length of a text after its lines were prefixed from the start of a line.
proof fn lemma_start_line_inserted_len(
    p: Seq<char>,
    text: Seq<char>,
    selection: Selection,
    mode: UnselectedApplyMode,
)
    requires
        selection.valid_in(text.len() as int),
        text.len() <= usize::MAX,
        start_line_inserts_at_line_start(text, p, selection, mode),
    ensures
        ({
            let once = start_line_spec(text, p, selection, mode.spec_expand(text, selection));
            &&& once.0.len() + 1 <= (text.len() + 1) * (p.len() + 1)
            &&& (text.len() + 1) * (p.len() + 1) * (p.len() + 1) <= usize::MAX ==> once.0.len() + 1
                + (once.0.len() + 1) * p.len() <= usize::MAX
        }),
{
    lemma_expand(mode, text, selection);
    let r = mode.spec_expand(text, selection);
    let before = text.subrange(0, r.start as int);
    let source = text.subrange(r.start as int, r.end as int);
    let after = text.subrange(r.end as int, text.len() as int);
    let ls = lines_of(source);
    lemma_lines_shape(source);
    crate::text::lemma_join_lines_of(source);
    lemma_join_prefix_len(ls, p);
    let once = start_line_spec(text, p, selection, r);
    assert(before + Seq::<char>::empty() =~= before);
    assert(once.0 == before + Seq::<char>::empty() + join_lines(prefix_lines(ls, p)) + after);
    let (big_n, m, n, pl) = (text.len() as int, once.0.len() as int, ls.len() as int, p.len() as int);
    assert(m == big_n + pl * n);
    assert(m + 1 <= (big_n + 1) * (pl + 1)) by (nonlinear_arith)
        requires
            m == big_n + pl * n,
            n <= big_n + 1,
            pl >= 0,
    ;
    assert((big_n + 1) * (pl + 1) * (pl + 1) <= usize::MAX ==> m + 1 + (m + 1) * pl <= usize::MAX)
        by (nonlinear_arith)
        requires
            m + 1 <= (big_n + 1) * (pl + 1),
            pl >= 0,
            m >= 0,
    ;
}

} // verus!
