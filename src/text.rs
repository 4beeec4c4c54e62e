//! Character sequences: the mathematical model of a text buffer and the
//! executable helpers that the formatting engine builds on.
use vstd::prelude::*;

verus! {

/// `p` is a prefix of `s`.
pub open spec fn starts_with(s: Seq<char>, p: Seq<char>) -> bool {
    p.len() <= s.len() && s.subrange(0, p.len() as int) == p
}

/// `p` is a suffix of `s`.
pub open spec fn ends_with(s: Seq<char>, p: Seq<char>) -> bool {
    p.len() <= s.len() && s.subrange(s.len() - p.len(), s.len() as int) == p
}

/// `s` without its leading `p`, or `s` itself where it does not start with `p`.
pub open spec fn strip_prefix(s: Seq<char>, p: Seq<char>) -> Seq<char> {
    if starts_with(s, p) {
        s.subrange(p.len() as int, s.len() as int)
    } else {
        s
    }
}

/// `s` without its trailing `p`, or `s` itself where it does not end with `p`.
pub open spec fn strip_suffix(s: Seq<char>, p: Seq<char>) -> Seq<char> {
    if ends_with(s, p) {
        s.subrange(0, s.len() - p.len())
    } else {
        s
    }
}

/// `s` split on every `'\n'`: always at least one line, the empty sequence
/// gives one empty line, and no line holds a `'\n'`.
pub open spec fn lines_of(s: Seq<char>) -> Seq<Seq<char>>
    decreases s.len(),
{
    if s.len() == 0 {
        seq![Seq::empty()]
    } else {
        let init = lines_of(s.drop_last());
        if s.last() == '\n' {
            init.push(Seq::empty())
        } else {
            init.update(init.len() - 1, init.last().push(s.last()))
        }
    }
}

/// The lines joined with a `'\n'` between each two.
pub open spec fn join_lines(ls: Seq<Seq<char>>) -> Seq<char>
    decreases ls.len(),
{
    if ls.len() == 0 {
        Seq::empty()
    } else if ls.len() == 1 {
        ls[0]
    } else {
        join_lines(ls.drop_last()) + seq!['\n'] + ls.last()
    }
}

/// The character has the Unicode `White_Space` property: a tab, line feed,
/// line or form feed, carriage return, space, next line, no-break space, Ogham
/// space mark, one of the spaces U+2000 to U+200A, a line or paragraph
/// separator, a narrow no-break space, the medium mathematical space or the
/// ideographic space.
pub open spec fn char_is_whitespace(c: char) -> bool {
    let v = c as u32;
    ||| 0x09 <= v <= 0x0D
    ||| v == 0x20
    ||| v == 0x85
    ||| v == 0xA0
    ||| v == 0x1680
    ||| 0x2000 <= v <= 0x200A
    ||| v == 0x2028
    ||| v == 0x2029
    ||| v == 0x202F
    ||| v == 0x205F
    ||| v == 0x3000
}

/// Relies on `char::is_whitespace`: whether the character has the Unicode
/// `White_Space` property.
#[verifier::external_body]
pub(crate) fn is_whitespace(c: char) -> (r: bool)
    ensures
        r == char_is_whitespace(c),
{
    c.is_whitespace()
}

/// Relies on `String::push`: appends one character to the string.
#[verifier::external_body]
pub(crate) fn push_char(s: &mut String, c: char)
    ensures
        final(s)@ == old(s)@.push(c),
{
    s.push(c)
}

/// The characters of a string slice, in order.
pub fn chars_of(s: &str) -> (v: Vec<char>)
    ensures
        v@ == s@,
{
    broadcast use vstd::string::group_string_axioms;

    let mut v: Vec<char> = Vec::new();
    for c in iter: s.chars()
        invariant
            v@ == iter.seq().take(iter.index() as int),
    {
        v.push(c);
    }
    assert(v@ =~= s@);
    v
}

/// A string holding the given characters, in order.
pub fn string_of(v: &Vec<char>) -> (s: String)
    ensures
        s@ == v@,
{
    let mut s = String::new();
    let mut i: usize = 0;
    while i < v.len()
        invariant
            i <= v.len(),
            s@ == v@.subrange(0, i as int),
        decreases v.len() - i,
    {
        push_char(&mut s, v[i]);
        i = i + 1;
        assert(s@ =~= v@.subrange(0, i as int));
    }
    assert(v@ =~= v@.subrange(0, i as int));
    s
}

/// Whether the characters `s[at..at + p.len()]` are those of `p`.
pub fn occurs_at(s: &Vec<char>, at: usize, p: &Vec<char>) -> (r: bool)
    requires
        at <= s.len(),
    ensures
        r == (p.len() <= s.len() - at && s@.subrange(at as int, at + p.len()) == p@),
{
    if p.len() > s.len() - at {
        return false;
    }
    let mut i: usize = 0;
    while i < p.len()
        invariant
            i <= p.len(),
            at + p.len() <= s.len(),
            forall|j: int| 0 <= j < i ==> s@[at + j] == p@[j],
        decreases p.len() - i,
    {
        if s[at + i] != p[i] {
            assert(s@.subrange(at as int, at + p.len())[i as int] != p@[i as int]);
            return false;
        }
        i = i + 1;
    }
    assert(s@.subrange(at as int, at + p.len()) =~= p@);
    true
}

/// Whether `s[from..to]` starts with `p`.
pub fn range_starts_with(s: &Vec<char>, from: usize, to: usize, p: &Vec<char>) -> (r: bool)
    requires
        from <= to <= s.len(),
    ensures
        r == starts_with(s@.subrange(from as int, to as int), p@),
{
    let ghost t = s@.subrange(from as int, to as int);
    if p.len() > to - from {
        return false;
    }
    let r = occurs_at(s, from, p);
    assert(t.subrange(0, p.len() as int) =~= s@.subrange(from as int, from + p.len()));
    r
}

/// Whether `s[from..to]` ends with `p`.
pub fn range_ends_with(s: &Vec<char>, from: usize, to: usize, p: &Vec<char>) -> (r: bool)
    requires
        from <= to <= s.len(),
    ensures
        r == ends_with(s@.subrange(from as int, to as int), p@),
{
    let ghost t = s@.subrange(from as int, to as int);
    if p.len() > to - from {
        return false;
    }
    let r = occurs_at(s, to - p.len(), p);
    assert(t.subrange(t.len() - p.len(), t.len() as int) =~= s@.subrange(to - p.len(), to as int));
    r
}

/// Whether `s[from..to]` is exactly `p`.
pub fn range_equals(s: &Vec<char>, from: usize, to: usize, p: &Vec<char>) -> (r: bool)
    requires
        from <= to <= s.len(),
    ensures
        r == (s@.subrange(from as int, to as int) == p@),
{
    if p.len() != to - from {
        return false;
    }
    occurs_at(s, from, p)
}

/// Appends `src[from..to]` to `dst`.
pub fn push_range(dst: &mut Vec<char>, src: &Vec<char>, from: usize, to: usize)
    requires
        from <= to <= src.len(),
    ensures
        final(dst)@ == old(dst)@ + src@.subrange(from as int, to as int),
{
    let mut i: usize = from;
    while i < to
        invariant
            from <= i <= to <= src.len(),
            dst@ == old(dst)@ + src@.subrange(from as int, i as int),
        decreases to - i,
    {
        dst.push(src[i]);
        i = i + 1;
        assert(dst@ =~= old(dst)@ + src@.subrange(from as int, i as int));
    }
}

/// The sequence holds no `'\n'`.
pub open spec fn single_line(s: Seq<char>) -> bool {
    forall|i: int| 0 <= i < s.len() ==> s[i] != '\n'
}

/// What a vector of lines holds, line by line.
pub open spec fn lines_view(v: Seq<Vec<char>>) -> Seq<Seq<char>> {
    v.map_values(|l: Vec<char>| l@)
}

/// Splitting gives at least one line and at most one more than there are
/// characters, and no line holds a `'\n'`.
pub proof fn lemma_lines_shape(s: Seq<char>)
    ensures
        1 <= lines_of(s).len() <= s.len() + 1,
        forall|i: int| 0 <= i < lines_of(s).len() ==> single_line(#[trigger] lines_of(s)[i]),
    decreases s.len(),
{
    if s.len() > 0 {
        lemma_lines_shape(s.drop_last());
        let init = lines_of(s.drop_last());
        if s.last() != '\n' {
            assert forall|i: int| 0 <= i < lines_of(s).len() implies single_line(
                #[trigger] lines_of(s)[i],
            ) by {
                if i == init.len() - 1 {
                    assert(single_line(init[i]));
                    assert(lines_of(s)[i] == init[i].push(s.last()));
                }
            }
        } else {
            assert forall|i: int| 0 <= i < lines_of(s).len() implies single_line(
                #[trigger] lines_of(s)[i],
            ) by {
                if i < init.len() {
                    assert(single_line(init[i]));
                }
            }
        }
    }
}

/// Joining the lines of a text gives the text back.
pub proof fn lemma_join_lines_of(s: Seq<char>)
    ensures
        join_lines(lines_of(s)) == s,
    decreases s.len(),
{
    if s.len() == 0 {
        assert(join_lines(lines_of(s)) =~= s);
    } else {
        let t = s.drop_last();
        lemma_join_lines_of(t);
        lemma_lines_shape(t);
        let init = lines_of(t);
        if s.last() == '\n' {
            assert(lines_of(s).drop_last() =~= init);
            assert(s =~= t + seq!['\n'] + Seq::<char>::empty());
        } else {
            let l = lines_of(s);
            if init.len() == 1 {
                assert(join_lines(l) == l[0]);
                assert(s =~= init[0].push(s.last()));
            } else {
                assert(l.drop_last() =~= init.drop_last());
                assert(join_lines(init) == join_lines(init.drop_last()) + seq!['\n'] + init.last());
                assert(s =~= t.push(s.last()));
                assert(s =~= join_lines(init.drop_last()) + seq!['\n'] + init.last().push(s.last()));
                assert(l.last() == init.last().push(s.last()));
            }
        }
    }
}

/// Appending characters without a `'\n'` extends the last line.
pub proof fn lemma_lines_of_append_single_line(x: Seq<char>, y: Seq<char>)
    requires
        single_line(y),
    ensures
        lines_of(x + y) == lines_of(x).update(lines_of(x).len() - 1, lines_of(x).last() + y),
    decreases y.len(),
{
    lemma_lines_shape(x);
    if y.len() == 0 {
        assert(x + y =~= x);
        assert(lines_of(x).last() + y =~= lines_of(x).last());
        assert(lines_of(x).update(lines_of(x).len() - 1, lines_of(x).last() + y) =~= lines_of(x));
    } else {
        let y0 = y.drop_last();
        assert(single_line(y0));
        lemma_lines_of_append_single_line(x, y0);
        assert((x + y).drop_last() =~= x + y0);
        assert((x + y).last() == y.last());
        assert((lines_of(x).last() + y0).push(y.last()) =~= lines_of(x).last() + y);
        assert(lines_of(x + y) =~= lines_of(x).update(lines_of(x).len() - 1, lines_of(x).last() + y));
    }
}

/// Splitting joined lines that hold no `'\n'` gives the lines back.
pub proof fn lemma_lines_of_join(ls: Seq<Seq<char>>)
    requires
        ls.len() >= 1,
        forall|i: int| 0 <= i < ls.len() ==> single_line(#[trigger] ls[i]),
    ensures
        lines_of(join_lines(ls)) == ls,
    decreases ls.len(),
{
    if ls.len() == 1 {
        lemma_lines_of_append_single_line(Seq::empty(), ls[0]);
        assert(Seq::<char>::empty() + ls[0] =~= ls[0]);
        assert(lines_of(Seq::<char>::empty()) =~= seq![Seq::<char>::empty()]);
        assert(lines_of(ls[0]) =~= ls);
    } else {
        let init = ls.drop_last();
        assert forall|i: int| 0 <= i < init.len() implies single_line(#[trigger] init[i]) by {
            assert(init[i] == ls[i]);
        }
        lemma_lines_of_join(init);
        let x = join_lines(init) + seq!['\n'];
        assert(x.drop_last() =~= join_lines(init));
        assert(lines_of(x) == init.push(Seq::empty()));
        assert(single_line(ls.last()));
        lemma_lines_of_append_single_line(x, ls.last());
        assert(Seq::<char>::empty() + ls.last() =~= ls.last());
        assert(lines_of(join_lines(ls)) =~= ls);
    }
}

/// Splits `s[from..to]` on `'\n'`.
pub fn split_lines(s: &Vec<char>, from: usize, to: usize) -> (r: Vec<Vec<char>>)
    requires
        from <= to <= s.len(),
    ensures
        lines_view(r@) == lines_of(s@.subrange(from as int, to as int)),
{
    let mut lines: Vec<Vec<char>> = Vec::new();
    let mut cur: Vec<char> = Vec::new();
    let mut i: usize = from;
    assert(s@.subrange(from as int, from as int) =~= Seq::<char>::empty());
    assert(lines_view(lines@).push(cur@) =~= seq![Seq::<char>::empty()]);
    while i < to
        invariant
            from <= i <= to <= s.len(),
            lines_view(lines@).push(cur@) == lines_of(s@.subrange(from as int, i as int)),
        decreases to - i,
    {
        let ghost prev = s@.subrange(from as int, i as int);
        let c = s[i];
        i = i + 1;
        let ghost now = s@.subrange(from as int, i as int);
        assert(now.drop_last() =~= prev);
        assert(now.last() == c);
        if c == '\n' {
            let line = cur;
            cur = Vec::new();
            lines.push(line);
            assert(lines_view(lines@).push(cur@) =~= lines_of(now));
        } else {
            cur.push(c);
            assert(lines_view(lines@).push(cur@) =~= lines_of(now));
        }
    }
    lines.push(cur);
    assert(lines_view(lines@) =~= lines_of(s@.subrange(from as int, to as int)));
    lines
}

/// The lines, with `p` taken off the front of each from index `k` on.
pub open spec fn strip_lines(ls: Seq<Seq<char>>, p: Seq<char>, k: int) -> Seq<Seq<char>> {
    Seq::new(ls.len(), |i: int| if i >= k { strip_prefix(ls[i], p) } else { ls[i] })
}

/// The lines, each with `p` put in front.
pub open spec fn prefix_lines(ls: Seq<Seq<char>>, p: Seq<char>) -> Seq<Seq<char>> {
    Seq::new(ls.len(), |i: int| p + ls[i])
}

/// Whether `s` starts with `p`.
pub fn has_prefix(s: &Vec<char>, p: &Vec<char>) -> (r: bool)
    ensures
        r == starts_with(s@, p@),
{
    assert(s@.subrange(0, s@.len() as int) =~= s@);
    range_starts_with(s, 0, s.len(), p)
}

/// A copy of `s[from..to]`.
pub fn copy_range(s: &Vec<char>, from: usize, to: usize) -> (r: Vec<char>)
    requires
        from <= to <= s.len(),
    ensures
        r@ == s@.subrange(from as int, to as int),
{
    let mut r: Vec<char> = Vec::new();
    push_range(&mut r, s, from, to);
    assert(r@ =~= s@.subrange(from as int, to as int));
    r
}

/// `s` without its leading `p`, where it has one.
pub fn strip_prefix_of(s: &Vec<char>, p: &Vec<char>) -> (r: Vec<char>)
    ensures
        r@ == strip_prefix(s@, p@),
{
    if has_prefix(s, p) {
        copy_range(s, p.len(), s.len())
    } else {
        copy_range(s, 0, s.len())
    }
}

/// Takes `p` off the front of each line from index `k` on.
pub fn strip_each_line(lines: &Vec<Vec<char>>, p: &Vec<char>, k: usize) -> (r: Vec<Vec<char>>)
    ensures
        lines_view(r@) == strip_lines(lines_view(lines@), p@, k as int),
{
    let mut r: Vec<Vec<char>> = Vec::new();
    let mut i: usize = 0;
    while i < lines.len()
        invariant
            i <= lines.len(),
            lines_view(r@) == strip_lines(lines_view(lines@), p@, k as int).take(i as int),
        decreases lines.len() - i,
    {
        let line = if i >= k {
            strip_prefix_of(&lines[i], p)
        } else {
            copy_range(&lines[i], 0, lines[i].len())
        };
        assert(lines[i as int]@.subrange(0, lines[i as int]@.len() as int) =~= lines[i as int]@);
        let ghost prev = r@;
        let ghost lv = line@;
        r.push(line);
        assert(lines_view(r@) =~= lines_view(prev).push(lv));
        assert(lines_view(lines@)[i as int] == lines@[i as int]@);
        i = i + 1;
        assert(lines_view(r@) =~= strip_lines(lines_view(lines@), p@, k as int).take(i as int));
    }
    assert(strip_lines(lines_view(lines@), p@, k as int).take(i as int) =~= strip_lines(
        lines_view(lines@),
        p@,
        k as int,
    ));
    r
}

/// Puts `p` in front of each line.
pub fn prefix_each_line(lines: &Vec<Vec<char>>, p: &Vec<char>) -> (r: Vec<Vec<char>>)
    ensures
        lines_view(r@) == prefix_lines(lines_view(lines@), p@),
{
    let mut r: Vec<Vec<char>> = Vec::new();
    let mut i: usize = 0;
    while i < lines.len()
        invariant
            i <= lines.len(),
            lines_view(r@) == prefix_lines(lines_view(lines@), p@).take(i as int),
        decreases lines.len() - i,
    {
        let mut line = copy_range(p, 0, p.len());
        push_range(&mut line, &lines[i], 0, lines[i].len());
        assert(p@.subrange(0, p@.len() as int) =~= p@);
        assert(lines[i as int]@.subrange(0, lines[i as int]@.len() as int) =~= lines[i as int]@);
        let ghost prev = r@;
        let ghost lv = line@;
        r.push(line);
        assert(lines_view(r@) =~= lines_view(prev).push(lv));
        assert(lines_view(lines@)[i as int] == lines@[i as int]@);
        i = i + 1;
        assert(lines_view(r@) =~= prefix_lines(lines_view(lines@), p@).take(i as int));
    }
    assert(prefix_lines(lines_view(lines@), p@).take(i as int) =~= prefix_lines(
        lines_view(lines@),
        p@,
    ));
    r
}

/// Appends the lines to `dst`, with a `'\n'` between each two.
pub fn push_joined(dst: &mut Vec<char>, lines: &Vec<Vec<char>>)
    ensures
        final(dst)@ == old(dst)@ + join_lines(lines_view(lines@)),
{
    let mut i: usize = 0;
    assert(join_lines(lines_view(lines@).take(0)) =~= Seq::<char>::empty());
    assert(dst@ =~= old(dst)@ + Seq::<char>::empty());
    while i < lines.len()
        invariant
            i <= lines.len(),
            dst@ == old(dst)@ + join_lines(lines_view(lines@).take(i as int)),
        decreases lines.len() - i,
    {
        let ghost ls = lines_view(lines@);
        if i > 0 {
            dst.push('\n');
        }
        push_range(dst, &lines[i], 0, lines[i].len());
        assert(lines[i as int]@.subrange(0, lines[i as int]@.len() as int) =~= lines[i as int]@);
        assert(ls.take(i + 1).drop_last() =~= ls.take(i as int));
        assert(ls.take(i + 1).last() == lines[i as int]@);
        i = i + 1;
        assert(dst@ =~= old(dst)@ + join_lines(ls.take(i as int)));
    }
    assert(lines_view(lines@).take(i as int) =~= lines_view(lines@));
}

} // verus!
