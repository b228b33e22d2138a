//! Character-level helpers shared by the string algorithms of the crate.
//!
//! Strings are handled through their view, a `Seq<char>`. Executable code
//! works on `Vec<char>` and converts back to `String` at the edges.

use vstd::prelude::*;
use vstd::utf8::{decode_utf8, valid_utf8};

verus! {

/// Collects the characters of `s` into a vector.
pub fn chars_of(s: &str) -> (r: Vec<char>)
    ensures
        r@ == s@,
{
    let mut out: Vec<char> = Vec::new();
    for c in it: s.chars()
        invariant
            out@ == it.seq().take(it.index() as int),
            it.seq() == s@,
    {
        out.push(c);
    }
    out
}

/// Builds a `String` holding exactly the given characters
/// (`FromIterator<&char>` for `String`).
#[verifier::external_body]
pub(crate) fn string_from_chars(v: &[char]) -> (r: String)
    ensures
        r@ == v@,
{
    v.iter().collect()
}

/// Reads bytes as UTF-8 text (`std::str::from_utf8`): the text they
/// encode when they are valid UTF-8, `None` otherwise.
#[verifier::external_body]
pub(crate) fn str_from_utf8(v: &[u8]) -> (r: Option<String>)
    ensures
        r matches Some(s) ==> valid_utf8(v@) && s@ == decode_utf8(v@),
        r is None ==> !valid_utf8(v@),
{
    match std::str::from_utf8(v) {
        Ok(s) => Some(s.to_string()),
        Err(_) => None,
    }
}

/// The Unicode `White_Space` property, which `char::is_whitespace` tests.
pub open spec fn is_ws(c: char) -> bool {
    let n = c as u32;
    ||| 0x09 <= n <= 0x0d
    ||| n == 0x20
    ||| n == 0x85
    ||| n == 0xa0
    ||| n == 0x1680
    ||| 0x2000 <= n <= 0x200a
    ||| n == 0x2028
    ||| n == 0x2029
    ||| n == 0x202f
    ||| n == 0x205f
    ||| n == 0x3000
}

/// Whether `c` has the Unicode `White_Space` property.
pub fn is_whitespace(c: char) -> (r: bool)
    ensures
        r == is_ws(c),
{
    let n = c as u32;
    (0x09 <= n && n <= 0x0d) || n == 0x20 || n == 0x85 || n == 0xa0 || n == 0x1680 || (0x2000
        <= n && n <= 0x200a) || n == 0x2028 || n == 0x2029 || n == 0x202f || n == 0x205f || n
        == 0x3000
}

/// Index of the first occurrence of `c` in `s`, or `s.len()` if there is none.
pub open spec fn first_index_of(s: Seq<char>, c: char) -> int
    decreases s.len(),
{
    if s.len() == 0 {
        0
    } else if s[0] == c {
        0
    } else {
        1 + first_index_of(s.drop_first(), c)
    }
}

pub proof fn lemma_first_index_of(s: Seq<char>, c: char)
    ensures
        0 <= first_index_of(s, c) <= s.len(),
        forall|j: int| 0 <= j < first_index_of(s, c) ==> s[j] != c,
        first_index_of(s, c) < s.len() ==> s[first_index_of(s, c)] == c,
    decreases s.len(),
{
    if s.len() > 0 && s[0] != c {
        lemma_first_index_of(s.drop_first(), c);
        assert forall|j: int| 0 <= j < first_index_of(s, c) implies s[j] != c by {
            if j > 0 {
                assert(s[j] == s.drop_first()[j - 1]);
            }
        }
    }
}

/// The characterization of `first_index_of` by its properties.
pub proof fn lemma_first_index_of_unique(s: Seq<char>, c: char, i: int)
    requires
        0 <= i <= s.len(),
        forall|j: int| 0 <= j < i ==> s[j] != c,
        i < s.len() ==> s[i] == c,
    ensures
        first_index_of(s, c) == i,
    decreases s.len(),
{
    if s.len() > 0 && s[0] != c {
        assert forall|j: int| 0 <= j < i - 1 implies s.drop_first()[j] != c by {
            assert(s[j + 1] != c);
        }
        lemma_first_index_of_unique(s.drop_first(), c, i - 1);
    }
}

/// Finds the first occurrence of `c` in `v` at or after `from`.
pub fn find_char_from(v: &[char], c: char, from: usize) -> (r: usize)
    requires
        from <= v@.len(),
    ensures
        r == from + first_index_of(v@.skip(from as int), c),
        from <= r <= v@.len(),
{
    let mut i = from;
    while i < v.len() && v[i] != c
        invariant
            from <= i <= v@.len(),
            forall|j: int| from <= j < i ==> v@[j] != c,
        decreases v@.len() - i,
    {
        i = i + 1;
    }
    proof {
        let t = v@.skip(from as int);
        assert forall|j: int| 0 <= j < i - from implies t[j] != c by {
            assert(t[j] == v@[j + from]);
        }
        lemma_first_index_of_unique(t, c, i - from);
    }
    i
}

/// Removes one trailing carriage return, as `str::lines` does after
/// removing the line feed.
pub open spec fn strip_cr(l: Seq<char>) -> Seq<char> {
    if l.len() > 0 && l.last() == '\r' {
        l.drop_last()
    } else {
        l
    }
}

/// The lines of `s` as `str::lines` yields them: the text is split after
/// each `'\n'`; the `'\n'` and one `'\r'` before it are removed; a final
/// piece without `'\n'` is kept as it is; an empty text has no lines.
pub open spec fn lines(s: Seq<char>) -> Seq<Seq<char>>
    decreases s.len(),
{
    if s.len() == 0 {
        seq![]
    } else {
        let i = first_index_of(s, '\n');
        if i < s.len() {
            proof {
                lemma_first_index_of(s, '\n');
            }
            seq![strip_cr(s.take(i))] + lines(s.skip(i + 1))
        } else {
            seq![s]
        }
    }
}

/// The views of a sequence of character vectors.
pub open spec fn views(v: Seq<Vec<char>>) -> Seq<Seq<char>> {
    v.map_values(|l: Vec<char>| l@)
}

/// Splits `v` into lines as `str::lines` does.
pub fn split_lines(v: &[char]) -> (r: Vec<Vec<char>>)
    ensures
        views(r@) == lines(v@),
{
    let mut out: Vec<Vec<char>> = Vec::new();
    let mut start: usize = 0;
    assert(v@.skip(0) == v@);
    assert(views(out@) =~= Seq::<Seq<char>>::empty());
    while start < v.len()
        invariant
            start <= v@.len(),
            lines(v@) == views(out@) + lines(v@.skip(start as int)),
        decreases v@.len() - start,
    {
        let ghost rest = v@.skip(start as int);
        let nl = find_char_from(v, '\n', start);
        proof {
            lemma_first_index_of(rest, '\n');
        }
        let mut end = nl;
        if nl < v.len() && nl > start && v[nl - 1] == '\r' {
            end = nl - 1;
        }
        let mut line: Vec<char> = Vec::new();
        let mut k = start;
        while k < end
            invariant
                start <= k <= end <= v@.len(),
                line@ == v@.subrange(start as int, k as int),
            decreases end - k,
        {
            line.push(v[k]);
            k = k + 1;
        }
        let ghost old_out = views(out@);
        out.push(line);
        proof {
            let i = nl - start;
            assert(views(out@) =~= old_out.push(line@));
            if nl < v.len() {
                assert(rest.take(i) == v@.subrange(start as int, nl as int));
                assert(rest.skip(i + 1) == v@.skip(nl + 1));
                assert(line@ == strip_cr(rest.take(i)));
                assert(lines(rest) == seq![line@] + lines(v@.skip(nl + 1)));
            } else {
                assert(line@ == rest);
                assert(lines(rest) == seq![line@]);
                assert(v@.skip(v@.len() as int) == Seq::<char>::empty());
            }
            assert(old_out.push(line@) == old_out + seq![line@]);
        }
        if nl < v.len() {
            start = nl + 1;
        } else {
            start = v.len();
        }
    }
    proof {
        assert(v@.skip(start as int) == Seq::<char>::empty());
    }
    out
}

/// `s` without its leading whitespace, as `str::trim_start` gives it.
pub open spec fn trim_start(s: Seq<char>) -> Seq<char>
    decreases s.len(),
{
    if s.len() > 0 && is_ws(s[0]) {
        trim_start(s.drop_first())
    } else {
        s
    }
}

/// `s` without its trailing whitespace, as `str::trim_end` gives it.
pub open spec fn trim_end(s: Seq<char>) -> Seq<char>
    decreases s.len(),
{
    if s.len() > 0 && is_ws(s.last()) {
        trim_end(s.drop_last())
    } else {
        s
    }
}

/// `s` without leading and trailing whitespace, as `str::trim` gives it.
pub open spec fn trim(s: Seq<char>) -> Seq<char> {
    trim_end(trim_start(s))
}

/// Index of the first character of `v` at or after `lo` that is not whitespace
/// (or `v.len()`); `trim_start(v.skip(lo))` starts there.
pub fn skip_ws_from(v: &[char], lo: usize) -> (r: usize)
    requires
        lo <= v@.len(),
    ensures
        lo <= r <= v@.len(),
        trim_start(v@.skip(lo as int)) == v@.skip(r as int),
{
    let mut i = lo;
    while i < v.len() && is_whitespace(v[i])
        invariant
            lo <= i <= v@.len(),
            trim_start(v@.skip(lo as int)) == trim_start(v@.skip(i as int)),
        decreases v@.len() - i,
    {
        assert(v@.skip(i as int).drop_first() == v@.skip(i + 1));
        i = i + 1;
    }
    i
}

/// Index just past the last character of `v[lo..hi]` that is not whitespace
/// (or `lo`); `trim_end(v[lo..hi])` ends there.
pub fn trim_end_index(v: &[char], lo: usize, hi: usize) -> (r: usize)
    requires
        lo <= hi <= v@.len(),
    ensures
        lo <= r <= hi,
        trim_end(v@.subrange(lo as int, hi as int)) == v@.subrange(lo as int, r as int),
{
    let mut j = hi;
    while j > lo && is_whitespace(v[j - 1])
        invariant
            lo <= j <= hi,
            hi <= v@.len(),
            trim_end(v@.subrange(lo as int, hi as int)) == trim_end(v@.subrange(lo as int, j as int)),
        decreases j - lo,
    {
        assert(v@.subrange(lo as int, j as int).drop_last() == v@.subrange(lo as int, j - 1));
        j = j - 1;
    }
    j
}

/// The characters of `v` between `lo` and `hi`.
pub fn slice_chars(v: &[char], lo: usize, hi: usize) -> (r: Vec<char>)
    requires
        lo <= hi <= v@.len(),
    ensures
        r@ == v@.subrange(lo as int, hi as int),
{
    let mut out: Vec<char> = Vec::new();
    let mut k = lo;
    while k < hi
        invariant
            lo <= k <= hi,
            hi <= v@.len(),
            out@ == v@.subrange(lo as int, k as int),
        decreases hi - k,
    {
        out.push(v[k]);
        k = k + 1;
    }
    out
}

/// `s` with surrounding whitespace removed, as `str::trim` does.
pub fn trim_chars(v: &[char]) -> (r: Vec<char>)
    ensures
        r@ == trim(v@),
{
    let lo = skip_ws_from(v, 0);
    assert(v@.skip(0) == v@);
    assert(v@.skip(lo as int) == v@.subrange(lo as int, v@.len() as int));
    let hi = trim_end_index(v, lo, v.len());
    slice_chars(v, lo, hi)
}

/// Whether `pat` occurs in `s` at position `i`.
pub open spec fn occurs_at(s: Seq<char>, pat: Seq<char>, i: int) -> bool {
    0 <= i && i + pat.len() <= s.len() && s.subrange(i, i + pat.len()) == pat
}

/// Whether `s` starts with `pat`.
pub open spec fn starts_with(s: Seq<char>, pat: Seq<char>) -> bool {
    occurs_at(s, pat, 0)
}

/// Whether `s` contains `pat`.
pub open spec fn contains(s: Seq<char>, pat: Seq<char>) -> bool {
    exists|i: int| occurs_at(s, pat, i)
}

/// Whether `s` ends with `pat`.
pub open spec fn ends_with(s: Seq<char>, pat: Seq<char>) -> bool {
    pat.len() <= s.len() && occurs_at(s, pat, s.len() - pat.len())
}

/// Whether `v` ends with `pat`.
pub fn ends_with_exec(v: &[char], pat: &[char]) -> (r: bool)
    ensures
        r == ends_with(v@, pat@),
{
    if pat.len() > v.len() {
        return false;
    }
    occurs_at_exec(v, pat, v.len() - pat.len())
}

/// Whether `pat` occurs in `v` at position `i`.
pub fn occurs_at_exec(v: &[char], pat: &[char], i: usize) -> (r: bool)
    ensures
        r == occurs_at(v@, pat@, i as int),
{
    if i > v.len() || pat.len() > v.len() - i {
        return false;
    }
    let mut k: usize = 0;
    while k < pat.len()
        invariant
            i + pat@.len() <= v.len(),
            v@.len() == v.len(),
            k <= pat@.len(),
            forall|j: int| 0 <= j < k ==> v@[i + j] == pat@[j],
        decreases pat@.len() - k,
    {
        if v[i + k] != pat[k] {
            assert(v@.subrange(i as int, i + pat@.len())[k as int] != pat@[k as int]);
            return false;
        }
        k = k + 1;
    }
    assert(v@.subrange(i as int, i + pat@.len()) =~= pat@);
    true
}

/// Whether `v` starts with `pat`.
pub fn starts_with_exec(v: &[char], pat: &[char]) -> (r: bool)
    ensures
        r == starts_with(v@, pat@),
{
    occurs_at_exec(v, pat, 0)
}

/// Whether the two character sequences are equal.
pub fn chars_eq(a: &[char], b: &[char]) -> (r: bool)
    ensures
        r == (a@ == b@),
{
    if a.len() != b.len() {
        return false;
    }
    let r = occurs_at_exec(a, b, 0);
    proof {
        if r {
            assert(a@.subrange(0, a@.len() as int) =~= a@);
        } else {
            assert(a@.subrange(0, b@.len() as int) =~= a@);
        }
    }
    r
}

/// The first position at or after `from` where `pat` occurs in `s`.
pub open spec fn is_first_occurrence_from(s: Seq<char>, pat: Seq<char>, from: int, i: int) -> bool {
    &&& from <= i
    &&& occurs_at(s, pat, i)
    &&& forall|j: int| from <= j < i ==> !occurs_at(s, pat, j)
}

/// Finds the first position at or after `from` where `pat` occurs in `v`.
pub fn find_from(v: &[char], pat: &[char], from: usize) -> (r: Option<usize>)
    ensures
        r matches Some(i) ==> is_first_occurrence_from(v@, pat@, from as int, i as int),
        r is None ==> forall|j: int| from <= j ==> !occurs_at(v@, pat@, j),
{
    if from > v.len() {
        return None;
    }
    let mut i = from;
    loop
        invariant
            from <= i <= v@.len(),
            forall|j: int| from <= j < i ==> !occurs_at(v@, pat@, j),
        decreases v@.len() - i,
    {
        if occurs_at_exec(v, pat, i) {
            return Some(i);
        }
        if i == v.len() {
            return None;
        }
        i = i + 1;
    }
}

/// `s` with every non-overlapping occurrence of `pat`, taken from the left,
/// replaced by `rep`, as `str::replace` gives it (for a non-empty `pat`).
pub open spec fn replace_all(s: Seq<char>, pat: Seq<char>, rep: Seq<char>) -> Seq<char>
    decreases s.len(),
{
    if pat.len() == 0 || s.len() == 0 {
        s
    } else if occurs_at(s, pat, 0) {
        rep + replace_all(s.skip(pat.len() as int), pat, rep)
    } else {
        seq![s[0]] + replace_all(s.drop_first(), pat, rep)
    }
}

/// Replaces every occurrence of `pat` in `v` by `rep`, as `str::replace` does.
pub fn replace_chars(v: &[char], pat: &[char], rep: &[char]) -> (r: Vec<char>)
    requires
        pat@.len() > 0,
    ensures
        r@ == replace_all(v@, pat@, rep@),
{
    let mut out: Vec<char> = Vec::new();
    let mut i: usize = 0;
    assert(v@.skip(0) == v@);
    while i < v.len()
        invariant
            i <= v@.len(),
            pat@.len() > 0,
            replace_all(v@, pat@, rep@) == out@ + replace_all(v@.skip(i as int), pat@, rep@),
        decreases v@.len() - i,
    {
        let ghost rest = v@.skip(i as int);
        let ghost before = out@;
        if occurs_at_exec(v, pat, i) {
            let mut k: usize = 0;
            while k < rep.len()
                invariant
                    k <= rep@.len(),
                    out@ == before + rep@.take(k as int),
                decreases rep@.len() - k,
            {
                out.push(rep[k]);
                k = k + 1;
                assert(rep@.take(k as int) == rep@.take(k - 1).push(rep@[k - 1]));
            }
            assert(rep@.take(rep@.len() as int) == rep@);
            proof {
                assert(rest.subrange(0, pat@.len() as int) == v@.subrange(i as int, i + pat@.len()));
                assert(occurs_at(rest, pat@, 0));
                assert(rest.skip(pat@.len() as int) == v@.skip(i + pat@.len()));
            }
            i = i + pat.len();
        } else {
            out.push(v[i]);
            proof {
                if pat@.len() <= rest.len() {
                    assert(rest.subrange(0, pat@.len() as int) == v@.subrange(i as int, i + pat@.len()));
                }
                assert(!occurs_at(rest, pat@, 0));
                assert(rest.drop_first() == v@.skip(i + 1));
                assert(rest[0] == v@[i as int]);
            }
            i = i + 1;
        }
    }
    assert(v@.skip(i as int) == Seq::<char>::empty());
    out
}

/// The lowercase form of a text, as `str::to_lowercase` computes it.
pub uninterp spec fn lowercase(s: Seq<char>) -> Seq<char>;

/// Calls `str::to_lowercase`. The result is named `lowercase` of the
/// argument; the Unicode case tables behind it are not written out here.
#[verifier::external_body]
pub(crate) fn to_lowercase(s: &str) -> (r: String)
    ensures
        r@ == lowercase(s@),
{
    s.to_lowercase()
}

/// Whether a character is alphanumeric, as `char::is_alphanumeric` decides
/// from the Unicode `Alphabetic` and `Numeric` properties.
pub uninterp spec fn alphanumeric(c: char) -> bool;

/// Calls `char::is_alphanumeric`; its result is named `alphanumeric`.
#[verifier::external_body]
pub(crate) fn is_alphanumeric(c: char) -> (r: bool)
    ensures
        r == alphanumeric(c),
{
    c.is_alphanumeric()
}

/// `s` without the prefix `pat`, if it starts with it.
pub open spec fn strip_prefix(s: Seq<char>, pat: Seq<char>) -> Option<Seq<char>> {
    if starts_with(s, pat) {
        Some(s.skip(pat.len() as int))
    } else {
        None
    }
}

/// Removes the prefix `pat` from `v`, if `v` starts with it.
pub fn strip_prefix_chars(v: &[char], pat: &[char]) -> (r: Option<Vec<char>>)
    ensures
        r matches Some(x) ==> strip_prefix(v@, pat@) == Some(x@),
        r is None ==> strip_prefix(v@, pat@) is None,
{
    if starts_with_exec(v, pat) {
        let t = slice_chars(v, pat.len(), v.len());
        assert(t@ == v@.skip(pat@.len() as int));
        Some(t)
    } else {
        None
    }
}

/// The pieces of `s` between occurrences of `c`, as `str::split` with a
/// character pattern yields them; there is always at least one piece.
pub open spec fn split_on(s: Seq<char>, c: char) -> Seq<Seq<char>>
    decreases s.len(),
{
    let i = first_index_of(s, c);
    if i < s.len() {
        proof {
            lemma_first_index_of(s, c);
        }
        seq![s.take(i)] + split_on(s.skip(i + 1), c)
    } else {
        seq![s]
    }
}

/// Splits `v` at every occurrence of `c`, as `str::split` does.
pub fn split_chars(v: &[char], c: char) -> (r: Vec<Vec<char>>)
    ensures
        views(r@) == split_on(v@, c),
{
    let mut out: Vec<Vec<char>> = Vec::new();
    let mut start: usize = 0;
    assert(v@.skip(0) == v@);
    assert(views(out@) =~= Seq::<Seq<char>>::empty());
    loop
        invariant
            start <= v@.len(),
            split_on(v@, c) == views(out@) + split_on(v@.skip(start as int), c),
        decreases v@.len() - start,
    {
        let ghost rest = v@.skip(start as int);
        let nl = find_char_from(v, c, start);
        proof {
            lemma_first_index_of(rest, c);
        }
        let piece = slice_chars(v, start, nl);
        let ghost old_out = views(out@);
        out.push(piece);
        proof {
            assert(views(out@) =~= old_out.push(piece@));
            assert(old_out.push(piece@) == old_out + seq![piece@]);
            assert(rest.take(nl - start) == piece@);
        }
        if nl < v.len() {
            proof {
                assert(rest.skip(nl - start + 1) == v@.skip(nl + 1));
                assert(split_on(rest, c) == seq![piece@] + split_on(v@.skip(nl + 1), c));
            }
            start = nl + 1;
        } else {
            proof {
                assert(rest == piece@);
                assert(split_on(rest, c) == seq![piece@]);
                assert(views(out@) + seq![] =~= views(out@));
            }
            return out;
        }
    }
}

/// The pieces joined with `sep` between each two, as `[..].join(sep)` gives it.
pub open spec fn join_with(parts: Seq<Seq<char>>, sep: Seq<char>) -> Seq<char>
    decreases parts.len(),
{
    if parts.len() == 0 {
        seq![]
    } else if parts.len() == 1 {
        parts[0]
    } else {
        join_with(parts.drop_last(), sep) + sep + parts.last()
    }
}

/// Joins the pieces with `sep` between each two.
pub fn join_chars(parts: &Vec<Vec<char>>, sep: &[char]) -> (r: Vec<char>)
    ensures
        r@ == join_with(views(parts@), sep@),
{
    let mut out: Vec<char> = Vec::new();
    let mut i: usize = 0;
    while i < parts.len()
        invariant
            i <= parts@.len(),
            out@ == join_with(views(parts@).take(i as int), sep@),
        decreases parts@.len() - i,
    {
        let ghost before = out@;
        if i > 0 {
            append_chars(&mut out, sep);
        }
        append_chars(&mut out, &parts[i]);
        proof {
            let t = views(parts@).take(i + 1);
            assert(t.drop_last() =~= views(parts@).take(i as int));
            assert(t.last() == parts@[i as int]@);
            if i == 0 {
                assert(before =~= Seq::<char>::empty());
                assert(out@ =~= parts@[0]@);
            }
        }
        i = i + 1;
    }
    assert(views(parts@).take(parts@.len() as int) =~= views(parts@));
    out
}

/// Appends the characters of `e` to `out`.
pub fn append_chars(out: &mut Vec<char>, e: &[char])
    ensures
        final(out)@ == old(out)@ + e@,
{
    let mut k: usize = 0;
    while k < e.len()
        invariant
            k <= e@.len(),
            out@ == old(out)@ + e@.take(k as int),
        decreases e@.len() - k,
    {
        out.push(e[k]);
        k = k + 1;
        assert(e@.take(k as int) == e@.take(k - 1).push(e@[k - 1]));
    }
    assert(e@.take(e@.len() as int) == e@);
}

/// The decimal digits of `n`, most significant first, without leading zeros
/// (`"0"` for zero), as `Display` for integers writes them.
pub open spec fn decimal(n: nat) -> Seq<char>
    decreases n,
{
    if n < 10 {
        seq![digit_char(n)]
    } else {
        decimal(n / 10) + seq![digit_char(n % 10)]
    }
}

/// The character of a decimal digit.
pub open spec fn digit_char(d: nat) -> char {
    if d == 0 { '0' }
    else if d == 1 { '1' }
    else if d == 2 { '2' }
    else if d == 3 { '3' }
    else if d == 4 { '4' }
    else if d == 5 { '5' }
    else if d == 6 { '6' }
    else if d == 7 { '7' }
    else if d == 8 { '8' }
    else { '9' }
}

pub fn digit(d: u32) -> (c: char)
    requires
        d < 10,
    ensures
        c == digit_char(d as nat),
{
    if d == 0 { '0' }
    else if d == 1 { '1' }
    else if d == 2 { '2' }
    else if d == 3 { '3' }
    else if d == 4 { '4' }
    else if d == 5 { '5' }
    else if d == 6 { '6' }
    else if d == 7 { '7' }
    else if d == 8 { '8' }
    else { '9' }
}

/// Appends the decimal digits of `n` to `out`.
pub fn push_decimal(out: &mut Vec<char>, n: u32)
    ensures
        final(out)@ == old(out)@ + decimal(n as nat),
    decreases n,
{
    if n < 10 {
        out.push(digit(n));
    } else {
        push_decimal(out, n / 10);
        out.push(digit(n % 10));
        assert(decimal(n as nat) == decimal((n / 10) as nat) + seq![digit_char((n % 10) as nat)]);
    }
}

/// Appends the decimal digits of a 64-bit `n` to `out`.
pub fn push_decimal_u64(out: &mut Vec<char>, n: u64)
    ensures
        final(out)@ == old(out)@ + decimal(n as nat),
    decreases n,
{
    if n < 10 {
        out.push(digit(n as u32));
    } else {
        push_decimal_u64(out, n / 10);
        out.push(digit((n % 10) as u32));
        assert(decimal(n as nat) == decimal((n / 10) as nat) + seq![digit_char((n % 10) as nat)]);
    }
}

/// The first position at or after `from` where `pat` occurs in `s`, if any.
pub open spec fn first_occurrence(s: Seq<char>, pat: Seq<char>, from: int) -> Option<int> {
    if exists|i: int| is_first_occurrence_from(s, pat, from, i) {
        Some(choose|i: int| is_first_occurrence_from(s, pat, from, i))
    } else {
        None
    }
}

proof fn lemma_first_occurrence_unique(s: Seq<char>, pat: Seq<char>, from: int, i: int, j: int)
    requires
        is_first_occurrence_from(s, pat, from, i),
        is_first_occurrence_from(s, pat, from, j),
    ensures
        i == j,
{
}

/// Finds the first position at or after `from` where `pat` occurs in `v`.
pub fn find_first(v: &[char], pat: &[char], from: usize) -> (r: Option<usize>)
    ensures
        r matches Some(i) ==> first_occurrence(v@, pat@, from as int) == Some(i as int),
        r is None ==> first_occurrence(v@, pat@, from as int) is None,
{
    let r = find_from(v, pat, from);
    proof {
        match r {
            Some(i) => {
                let j = choose|j: int| is_first_occurrence_from(v@, pat@, from as int, j);
                lemma_first_occurrence_unique(v@, pat@, from as int, i as int, j);
            },
            None => {
                if exists|i: int| is_first_occurrence_from(v@, pat@, from as int, i) {
                    let j = choose|j: int| is_first_occurrence_from(v@, pat@, from as int, j);
                    assert(occurs_at(v@, pat@, j));
                }
            },
        }
    }
    r
}

/// Whether `pat` occurs in `v`.
pub fn contains_exec(v: &[char], pat: &[char]) -> (r: bool)
    ensures
        r == contains(v@, pat@),
{
    let r = find_from(v, pat, 0);
    proof {
        if let Some(i) = r {
            assert(occurs_at(v@, pat@, i as int));
        }
    }
    r.is_some()
}

/// `s` without its leading occurrences of `c`, as `str::trim_start_matches`
/// with a character gives it.
pub open spec fn trim_leading(s: Seq<char>, c: char) -> Seq<char>
    decreases s.len(),
{
    if s.len() > 0 && s[0] == c {
        trim_leading(s.drop_first(), c)
    } else {
        s
    }
}

/// Index of the first character of `v` at or after `lo` that is not `c`.
pub fn skip_char_from(v: &[char], c: char, lo: usize) -> (r: usize)
    requires
        lo <= v@.len(),
    ensures
        lo <= r <= v@.len(),
        trim_leading(v@.skip(lo as int), c) == v@.skip(r as int),
{
    let mut i = lo;
    while i < v.len() && v[i] == c
        invariant
            lo <= i <= v@.len(),
            trim_leading(v@.skip(lo as int), c) == trim_leading(v@.skip(i as int), c),
        decreases v@.len() - i,
    {
        assert(v@.skip(i as int).drop_first() == v@.skip(i + 1));
        i = i + 1;
    }
    i
}

} // verus!
