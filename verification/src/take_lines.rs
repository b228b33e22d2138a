//! Selecting lines of an included file: by a range of line numbers, or
//! between `ANCHOR: name` and `ANCHOR_END: name` comments.

use vstd::prelude::*;
use crate::regex_ext::{regex_capture_group, regex_group_match};
use crate::text::{chars_eq, chars_of, lines, split_lines, string_from_chars, views};

verus! {

/// One end of a range of line numbers.
#[derive(Debug, Clone, Copy, PartialEq, Eq, Structural)]
pub enum LineBound {
    /// The end includes this line number.
    Included(usize),
    /// The end excludes this line number.
    Excluded(usize),
    /// There is no end.
    Unbounded,
}

/// The first line number a start bound lets in.
pub open spec fn first_line(start: LineBound) -> nat {
    match start {
        LineBound::Included(n) => n as nat,
        LineBound::Excluded(n) => (n + 1) as nat,
        LineBound::Unbounded => 0,
    }
}

/// How many lines from `start` an end bound lets in.
pub open spec fn line_count(start: nat, end: LineBound) -> nat {
    match end {
        LineBound::Excluded(e) => if e >= start { (e - start) as nat } else { 0 },
        LineBound::Included(e) => if e + 1 >= start { (e + 1 - start) as nat } else { 0 },
        LineBound::Unbounded => usize::MAX as nat,
    }
}

/// The lines `skip(start).take(count)` gives.
pub open spec fn skip_take(l: Seq<Seq<char>>, start: nat, count: nat) -> Seq<Seq<char>> {
    let lo = if start <= l.len() { start as int } else { l.len() as int };
    let hi = if lo + count <= l.len() { lo + count } else { l.len() as int };
    l.subrange(lo, hi)
}

/// Whether a start bound admits line number `i`.
pub open spec fn start_admits(start: LineBound, i: int) -> bool {
    match start {
        LineBound::Included(n) => n <= i,
        LineBound::Excluded(n) => n < i,
        LineBound::Unbounded => true,
    }
}

/// Whether an end bound admits line number `i`.
pub open spec fn end_admits(end: LineBound, i: int) -> bool {
    match end {
        LineBound::Included(n) => i <= n,
        LineBound::Excluded(n) => i < n,
        LineBound::Unbounded => true,
    }
}

fn collect_strings(v: &Vec<Vec<char>>, lo: usize, hi: usize) -> (r: Vec<String>)
    requires
        lo <= hi <= v@.len(),
    ensures
        crate::ids::string_views(r@) == views(v@).subrange(lo as int, hi as int),
{
    let mut out: Vec<String> = Vec::new();
    let mut k = lo;
    while k < hi
        invariant
            lo <= k <= hi <= v@.len(),
            crate::ids::string_views(out@) =~= views(v@).subrange(lo as int, k as int),
        decreases hi - k,
    {
        let ghost before = crate::ids::string_views(out@);
        out.push(string_from_chars(&v[k]));
        assert(crate::ids::string_views(out@) =~= before.push(v@[k as int]@));
        k = k + 1;
    }
    out
}

/// Take a range of lines from a string: the lines from the start bound, as
/// many as the end bound lets in.
pub fn take_lines(s: &str, start: LineBound, end: LineBound) -> (r: Vec<String>)
    requires
        start != LineBound::Excluded(usize::MAX),
        end != LineBound::Included(usize::MAX),
    ensures
        crate::ids::string_views(r@) == skip_take(
            lines(s@),
            first_line(start),
            line_count(first_line(start), end),
        ),
{
    let v = chars_of(s);
    let ls = split_lines(&v);
    let first: usize = match start {
        LineBound::Excluded(n) => n + 1,
        LineBound::Included(n) => n,
        LineBound::Unbounded => 0,
    };
    let count: usize = match end {
        LineBound::Excluded(e) => e.saturating_sub(first),
        LineBound::Included(e) => (e + 1).saturating_sub(first),
        LineBound::Unbounded => usize::MAX,
    };
    let lo = if first <= ls.len() { first } else { ls.len() };
    let hi = if count <= ls.len() - lo { lo + count } else { ls.len() };
    collect_strings(&ls, lo, hi)
}

/// Returns every line with `true` for lines within the range and `false`
/// for those outside of it.
pub fn take_rustdoc_lines(s: &str, start: LineBound, end: LineBound) -> (r: Vec<(String, bool)>)
    ensures
        r@.len() == lines(s@).len(),
        forall|i: int|
            0 <= i < r@.len() ==> #[trigger] r@[i].0@ == lines(s@)[i] && r@[i].1 == (
            start_admits(start, i) && end_admits(end, i)),
{
    let v = chars_of(s);
    let ls = split_lines(&v);
    let mut out: Vec<(String, bool)> = Vec::new();
    let mut i: usize = 0;
    while i < ls.len()
        invariant
            i <= ls@.len(),
            views(ls@) == lines(s@),
            out@.len() == i,
            forall|j: int|
                0 <= j < i ==> #[trigger] out@[j].0@ == lines(s@)[j] && out@[j].1 == (
                start_admits(start, j) && end_admits(end, j)),
        decreases ls@.len() - i,
    {
        let in_start = match start {
            LineBound::Included(n) => n <= i,
            LineBound::Excluded(n) => n < i,
            LineBound::Unbounded => true,
        };
        let in_end = match end {
            LineBound::Included(n) => i <= n,
            LineBound::Excluded(n) => i < n,
            LineBound::Unbounded => true,
        };
        let ghost before = out@;
        out.push((string_from_chars(&ls[i]), in_start && in_end));
        assert(views(ls@)[i as int] == ls@[i as int]@);
        assert(out@[i as int].0@ == lines(s@)[i as int]);
        assert(out@[i as int].1 == (start_admits(start, i as int) && end_admits(end, i as int)));
        assert forall|j: int| 0 <= j < i + 1 implies #[trigger] out@[j].0@ == lines(s@)[j] && out@[j].1
            == (start_admits(start, j) && end_admits(end, j)) by {
            if j < i {
                assert(out@[j] == before[j]);
                assert(before[j].0@ == lines(s@)[j]);
            }
        }
        i = i + 1;
    }
    out
}

/// The pattern of an anchor's start comment; group 1 is the anchor's name.
pub const ANCHOR_START: &'static str = r"ANCHOR:\s*(?P<anchor_name>[\w_-]+)";

/// The pattern of an anchor's end comment; group 1 is the anchor's name.
pub const ANCHOR_END: &'static str = r"ANCHOR_END:\s*(?P<anchor_name>[\w_-]+)";

/// What the start-comment pattern finds in a line.
pub open spec fn start_match(line: Seq<char>) -> Option<Option<Seq<char>>> {
    regex_group_match(ANCHOR_START@, line, 1)
}

/// What the end-comment pattern finds in a line.
pub open spec fn end_match(line: Seq<char>) -> Option<Option<Seq<char>>> {
    regex_group_match(ANCHOR_END@, line, 1)
}

/// Whether a match names the anchor.
pub open spec fn names(m: Option<Option<Seq<char>>>, anchor: Seq<char>) -> bool {
    m == Some(Some(anchor))
}

/// One line of the anchored selection: from the state (inside the anchor
/// or not) and the line, the next state and what the line yields. Lines
/// with anchor comments never yield; outside the anchor nothing is taken,
/// inside every other line is.
pub open spec fn anchor_step(inside: bool, line: Seq<char>, anchor: Seq<char>) -> (bool, bool) {
    if inside {
        if end_match(line) is Some {
            (!names(end_match(line), anchor), false)
        } else {
            (true, !(start_match(line) is Some))
        }
    } else if end_match(line) is Some {
        (false, false)
    } else if start_match(line) is Some {
        (names(start_match(line), anchor), false)
    } else {
        (false, false)
    }
}

/// Runs [`anchor_step`] over the lines: the final state and the lines taken.
pub open spec fn anchored(ls: Seq<Seq<char>>, anchor: Seq<char>) -> (bool, Seq<Seq<char>>)
    decreases ls.len(),
{
    if ls.len() == 0 {
        (false, seq![])
    } else {
        let (inside, taken) = anchored(ls.drop_last(), anchor);
        let (next, keep) = anchor_step(inside, ls.last(), anchor);
        (next, if keep { taken.push(ls.last()) } else { taken })
    }
}

/// Runs the anchor patterns on a line: what the end and the start pattern
/// find, and whether each names the anchor.
fn anchor_matches(line: &str, anchor: &[char]) -> (r: (bool, bool, bool, bool))
    ensures
        r.0 == (end_match(line@) is Some),
        r.1 == names(end_match(line@), anchor@),
        r.2 == (start_match(line@) is Some),
        r.3 == names(start_match(line@), anchor@),
{
    let e = regex_capture_group(ANCHOR_END, line, 1);
    let st = regex_capture_group(ANCHOR_START, line, 1);
    let e_names = match &e {
        Some(Some(name)) => {
            let n = chars_of(name.as_str());
            chars_eq(&n, anchor)
        },
        _ => false,
    };
    let s_names = match &st {
        Some(Some(name)) => {
            let n = chars_of(name.as_str());
            chars_eq(&n, anchor)
        },
        _ => false,
    };
    (e.is_some(), e_names, st.is_some(), s_names)
}

/// Take anchored lines from a string: the lines between `ANCHOR: anchor`
/// and `ANCHOR_END: anchor` comments. Lines containing anchors are ignored.
pub fn take_anchored_lines(s: &str, anchor: &str) -> (r: Vec<String>)
    ensures
        crate::ids::string_views(r@) == anchored(lines(s@), anchor@).1,
{
    let v = chars_of(s);
    let a = chars_of(anchor);
    let ls = split_lines(&v);
    let mut out: Vec<String> = Vec::new();
    let mut inside = false;
    let mut i: usize = 0;
    while i < ls.len()
        invariant
            i <= ls@.len(),
            a@ == anchor@,
            views(ls@) == lines(s@),
            (inside, crate::ids::string_views(out@)) == anchored(views(ls@).take(i as int), anchor@),
        decreases ls@.len() - i,
    {
        let line = string_from_chars(&ls[i]);
        let (ends, ends_ours, starts, starts_ours) = anchor_matches(line.as_str(), &a);
        let ghost before = crate::ids::string_views(out@);
        let ghost old_inside = inside;
        let mut keep = false;
        if inside {
            if ends {
                inside = !ends_ours;
            } else {
                keep = !starts;
            }
        } else if ends {
        } else if starts {
            inside = starts_ours;
        }
        if keep {
            out.push(line);
        }
        proof {
            let t = views(ls@).take(i + 1);
            assert(t.drop_last() =~= views(ls@).take(i as int));
            assert(t.last() == ls@[i as int]@);
            assert(anchor_step(old_inside, ls@[i as int]@, anchor@) == (inside, keep));
            if keep {
                assert(crate::ids::string_views(out@) =~= before.push(ls@[i as int]@));
            }
        }
        i = i + 1;
    }
    assert(views(ls@).take(ls@.len() as int) =~= views(ls@));
    out
}

/// One line of the rustdoc-style anchored selection: the next state and
/// whether the line is given, and if so, whether it is inside the anchor.
/// Lines with anchor comments are never given; other lines are given
/// marked with whether they lie inside the anchor.
pub open spec fn rustdoc_anchor_step(inside: bool, line: Seq<char>, anchor: Seq<char>) -> (
    bool,
    Option<bool>,
) {
    if inside {
        if end_match(line) is Some {
            (!names(end_match(line), anchor), None)
        } else if start_match(line) is Some {
            (true, None)
        } else {
            (true, Some(true))
        }
    } else if end_match(line) is Some {
        (false, None)
    } else if start_match(line) is Some {
        (names(start_match(line), anchor), None)
    } else {
        (false, Some(false))
    }
}

/// Runs [`rustdoc_anchor_step`] over the lines: the final state and the
/// lines given, each with its mark.
pub open spec fn rustdoc_anchored(ls: Seq<Seq<char>>, anchor: Seq<char>) -> (
    bool,
    Seq<(Seq<char>, bool)>,
)
    decreases ls.len(),
{
    if ls.len() == 0 {
        (false, seq![])
    } else {
        let (inside, given) = rustdoc_anchored(ls.drop_last(), anchor);
        let (next, out) = rustdoc_anchor_step(inside, ls.last(), anchor);
        (
            next,
            match out {
                Some(mark) => given.push((ls.last(), mark)),
                None => given,
            },
        )
    }
}

/// The views of a sequence of marked lines.
pub open spec fn marked_views(v: Seq<(String, bool)>) -> Seq<(Seq<char>, bool)> {
    v.map_values(|p: (String, bool)| (p.0@, p.1))
}

/// Returns `(line, true)` for lines between the `ANCHOR: anchor` and
/// `ANCHOR_END: anchor` comments and `(line, false)` for those outside;
/// lines with anchor comments are left out.
pub fn take_rustdoc_anchored_lines(s: &str, anchor: &str) -> (r: Vec<(String, bool)>)
    ensures
        marked_views(r@) == rustdoc_anchored(lines(s@), anchor@).1,
{
    let v = chars_of(s);
    let a = chars_of(anchor);
    let ls = split_lines(&v);
    let mut out: Vec<(String, bool)> = Vec::new();
    let mut inside = false;
    let mut i: usize = 0;
    while i < ls.len()
        invariant
            i <= ls@.len(),
            a@ == anchor@,
            views(ls@) == lines(s@),
            (inside, marked_views(out@)) == rustdoc_anchored(views(ls@).take(i as int), anchor@),
        decreases ls@.len() - i,
    {
        let line = string_from_chars(&ls[i]);
        let (ends, ends_ours, starts, starts_ours) = anchor_matches(line.as_str(), &a);
        let ghost before = marked_views(out@);
        let ghost old_inside = inside;
        let mut given: Option<bool> = None;
        if inside {
            if ends {
                inside = !ends_ours;
            } else if starts {
            } else {
                given = Some(true);
            }
        } else if ends {
        } else if starts {
            inside = starts_ours;
        } else {
            given = Some(false);
        }
        if let Some(mark) = given {
            out.push((line, mark));
        }
        proof {
            let t = views(ls@).take(i + 1);
            assert(t.drop_last() =~= views(ls@).take(i as int));
            assert(t.last() == ls@[i as int]@);
            assert(rustdoc_anchor_step(old_inside, ls@[i as int]@, anchor@) == (inside, given));
            if let Some(mark) = given {
                assert(marked_views(out@) =~= before.push((ls@[i as int]@, mark)));
            }
        }
        i = i + 1;
    }
    assert(views(ls@).take(ls@.len() as int) =~= views(ls@));
    out
}


/// The lines marked `true`, in order.
pub open spec fn kept(v: Seq<(Seq<char>, bool)>) -> Seq<Seq<char>>
    decreases v.len(),
{
    if v.len() == 0 {
        seq![]
    } else {
        kept(v.drop_last()) + if v.last().1 { seq![v.last().0] } else { seq![] }
    }
}

/// Every line marked with whether a range admits its number, as
/// [`take_rustdoc_lines`] gives them.
pub open spec fn range_marks(l: Seq<Seq<char>>, start: LineBound, end: LineBound) -> Seq<(Seq<char>, bool)> {
    Seq::new(l.len(), |i: int| (l[i], start_admits(start, i) && end_admits(end, i)))
}

/// Taking anchored lines gives the lines that the rustdoc variant marks as
/// inside the anchor, in order: both walk the lines in the same states.
pub proof fn law_anchored_lines_are_the_marked_ones(ls: Seq<Seq<char>>, anchor: Seq<char>)
    ensures
        anchored(ls, anchor).1 == kept(rustdoc_anchored(ls, anchor).1),
        anchored(ls, anchor).0 == rustdoc_anchored(ls, anchor).0,
    decreases ls.len(),
{
    if ls.len() > 0 {
        law_anchored_lines_are_the_marked_ones(ls.drop_last(), anchor);
        let given = rustdoc_anchored(ls.drop_last(), anchor).1;
        let l = ls.last();
        assert(given.push((l, true)).drop_last() =~= given);
        assert(given.push((l, false)).drop_last() =~= given);
        assert(kept(given) + seq![] =~= kept(given));
    }
}

/// The marks of the first `n` lines admit a contiguous run: the lines from
/// the first admitted number up to the last, both cut at `n`.
proof fn lemma_range_kept(l: Seq<Seq<char>>, start: LineBound, end: LineBound, n: int)
    requires
        0 <= n <= l.len(),
        end is Unbounded ==> l.len() <= first_line(start) + usize::MAX,
        start != LineBound::Excluded(usize::MAX),
        end != LineBound::Included(usize::MAX),
    ensures
        ({
            let first = first_line(start) as int;
            let stop = first + line_count(first_line(start), end);
            let lo = if first <= n { first } else { n };
            let hi = if stop <= n { stop } else { n };
            kept(range_marks(l, start, end).take(n)) == l.subrange(lo, if hi < lo { lo } else { hi })
        }),
    decreases n,
{
    let first = first_line(start) as int;
    let stop = first + line_count(first_line(start), end);
    let m = range_marks(l, start, end);
    if n == 0 {
        assert(m.take(0) =~= seq![]);
        assert(l.subrange(0, 0) =~= seq![]);
    } else {
        lemma_range_kept(l, start, end, n - 1);
        let i = n - 1;
        assert(m.take(n).drop_last() =~= m.take(i));
        assert(m.take(n).last() == m[i]);
        assert(m[i].1 == (first <= i && i < stop));
        let lo0 = if first <= i { first } else { i };
        let hi0 = if stop <= i { stop } else { i };
        let lo1 = if first <= n { first } else { n };
        let hi1 = if stop <= n { stop } else { n };
        if first <= i && i < stop {
            assert(l.subrange(lo1, hi1) =~= l.subrange(lo0, hi0).push(l[i]));
        } else {
            assert(l.subrange(lo1, if hi1 < lo1 { lo1 } else { hi1 }) =~= l.subrange(lo0, if hi0 < lo0 { lo0 } else { hi0 }));
            assert(kept(m.take(i)) + seq![] =~= kept(m.take(i)));
        }
    }
}

/// Taking a range of lines gives the lines that the rustdoc variant marks
/// as inside the range, in order; the range is read as the line numbers
/// that its bounds admit (so `4..3` gives no line and `..100` every line of
/// a shorter text). It fails only where a range without an end would take
/// more than `usize::MAX` lines, which no text in memory has.
pub proof fn law_range_lines_are_the_marked_ones(l: Seq<Seq<char>>, start: LineBound, end: LineBound)
    requires
        start != LineBound::Excluded(usize::MAX),
        end != LineBound::Included(usize::MAX),
        end is Unbounded ==> l.len() <= first_line(start) + usize::MAX,
    ensures
        skip_take(l, first_line(start), line_count(first_line(start), end)) == kept(range_marks(l, start, end)),
{
    lemma_range_kept(l, start, end, l.len() as int);
    assert(range_marks(l, start, end).take(l.len() as int) =~= range_marks(l, start, end));
}

} // verus!
