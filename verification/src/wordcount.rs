//! A small example backend that counts the words of each chapter, and the
//! message with which errors are reported.

use vstd::prelude::*;
use crate::book::{preorder, Book, BookItem};
use crate::text::{append_chars, chars_eq, chars_of, is_whitespace, is_ws, string_from_chars};

verus! {

/// The configuration of the word counter: chapters to leave out by name,
/// and whether a chapter with an odd number of words is an error.
pub struct WordcountConfig {
    /// Names of chapters that are not counted.
    pub ignores: Vec<String>,
    /// Whether an odd word count is refused.
    pub deny_odds: bool,
}

impl Default for WordcountConfig {
    fn default() -> (r: WordcountConfig)
        ensures
            r.ignores@.len() == 0,
            !r.deny_odds,
    {
        WordcountConfig { ignores: Vec::new(), deny_odds: false }
    }
}

/// The number of words of a text: the runs of characters that are not
/// whitespace, as `str::split_whitespace` yields them.
pub open spec fn word_count(s: Seq<char>) -> nat
    decreases s.len(),
{
    if s.len() == 0 {
        0
    } else {
        word_count(s.drop_last()) + if !is_ws(s.last()) && (s.len() == 1 || is_ws(
            s[s.len() - 2],
        )) {
            1nat
        } else {
            0nat
        }
    }
}

/// Counts the words of a text; see [`word_count`].
pub fn count_words(text: &str) -> (r: usize)
    ensures
        r == word_count(text@),
{
    let v = chars_of(text);
    let mut n: usize = 0;
    let mut i: usize = 0;
    assert(v@.take(0) =~= Seq::<char>::empty());
    while i < v.len()
        invariant
            i <= v@.len(),
            n <= i,
            n == word_count(v@.take(i as int)),
            v@ == text@,
        decreases v@.len() - i,
    {
        let starts = !is_whitespace(v[i]) && (i == 0 || is_whitespace(v[i - 1]));
        proof {
            let t = v@.take(i + 1);
            assert(t.drop_last() =~= v@.take(i as int));
            assert(t.last() == v@[i as int]);
            if i > 0 {
                assert(t[t.len() - 2] == v@[i - 1]);
            }
        }
        if starts {
            n = n + 1;
        }
        i = i + 1;
    }
    assert(v@.take(v@.len() as int) =~= v@);
    n
}

/// Whether a name is among the ignored ones.
pub open spec fn ignored(ignores: Seq<String>, name: Seq<char>) -> bool {
    exists|i: int| 0 <= i < ignores.len() && #[trigger] ignores[i]@ == name
}

/// The counted chapters of the items: each chapter, in depth-first order,
/// that is not ignored, with its name and word count.
pub open spec fn counts_of(items: Seq<BookItem>, ignores: Seq<String>) -> Seq<(Seq<char>, nat)>
    decreases items.len(),
{
    if items.len() == 0 {
        seq![]
    } else {
        counts_of(items.drop_last(), ignores) + match items.last() {
            BookItem::Chapter(ch) => if ignored(ignores, ch.name@) {
                seq![]
            } else {
                seq![(ch.name@, word_count(ch.content@))]
            },
            _ => seq![],
        }
    }
}

/// The counts as values.
pub open spec fn counts_view(v: Seq<(String, usize)>) -> Seq<(Seq<char>, nat)> {
    v.map_values(|p: (String, usize)| (p.0@, p.1 as nat))
}

/// Whether the counter stops at a count: when odd counts are refused and
/// the count is odd.
pub open spec fn refuses(cfg: &WordcountConfig, count: nat) -> bool {
    cfg.deny_odds && count % 2 == 1
}

/// The word counts of the chapters of a book, in depth-first order,
/// leaving out the ignored ones. When odd counts are refused, the counting
/// stops at the first odd count, which is the last one given, and the
/// flag says so.
pub fn word_counts(book: &Book, cfg: &WordcountConfig) -> (r: (Vec<(String, usize)>, bool))
    ensures
        r.1 ==> counts_view(r.0@).len() > 0 && refuses(cfg, counts_view(r.0@).last().1)
            && counts_view(r.0@) == counts_of(preorder(book.sections@), cfg.ignores@).take(
            counts_view(r.0@).len() as int,
        ),
        r.1 ==> forall|i: int|
            0 <= i < counts_view(r.0@).len() - 1 ==> !refuses(cfg, #[trigger] counts_view(r.0@)[i].1),
        !r.1 ==> counts_view(r.0@) == counts_of(preorder(book.sections@), cfg.ignores@),
        !r.1 ==> forall|i: int|
            0 <= i < counts_view(r.0@).len() ==> !refuses(cfg, #[trigger] counts_view(r.0@)[i].1),
{
    let ghost all = preorder(book.sections@);
    let mut it = book.iter();
    let mut out: Vec<(String, usize)> = Vec::new();
    let ghost mut seen: int = 0;
    loop
        invariant
            0 <= seen <= all.len(),
            all == preorder(book.sections@),
            it.remaining() == all.skip(seen),
            counts_view(out@) == counts_of(all.take(seen), cfg.ignores@),
            forall|i: int| 0 <= i < counts_view(out@).len() ==> !refuses(cfg, #[trigger] counts_view(out@)[i].1),
        decreases it.remaining().len(),
    {
        let ghost before = it.remaining();
        match it.next() {
            None => {
                assert(all.skip(seen).len() == 0);
                assert(all.take(seen) =~= all);
                return (out, false);
            },
            Some(item) => {
                assert(all[seen] == *item) by {
                    assert(before[0] == *item);
                }
                let ghost prev = counts_view(out@);
                let mut stop = false;
                if let BookItem::Chapter(ch) = item {
                    let name = chars_of(ch.name.as_str());
                    let mut ign = false;
                    let mut k: usize = 0;
                    while k < cfg.ignores.len()
                        invariant
                            k <= cfg.ignores@.len(),
                            name@ == ch.name@,
                            ign ==> ignored(cfg.ignores@, ch.name@),
                            !ign ==> forall|j: int| 0 <= j < k ==> cfg.ignores@[j]@ != ch.name@,
                        decreases cfg.ignores@.len() - k,
                    {
                        if chars_eq(&chars_of(cfg.ignores[k].as_str()), &name) {
                            ign = true;
                        }
                        k = k + 1;
                    }
                    if !ign {
                        let n = count_words(ch.content.as_str());
                        out.push((ch.name.clone(), n));
                        assert(counts_view(out@) =~= prev.push((ch.name@, n as nat)));
                        if cfg.deny_odds && n % 2 == 1 {
                            stop = true;
                        }
                    } else {
                        assert(counts_view(out@) =~= prev);
                    }
                }
                proof {
                    let t = all.take(seen + 1);
                    assert(t.drop_last() =~= all.take(seen));
                    assert(t.last() == all[seen]);
                    if !(item is Chapter) {
                        assert(counts_view(out@) =~= prev);
                    }
                    assert(counts_view(out@) == counts_of(t, cfg.ignores@));
                }
                if stop {
                    proof {
                        let c = counts_of(all, cfg.ignores@);
                        lemma_counts_prefix(all, cfg.ignores@, seen + 1);
                    }
                    return (out, true);
                }
                proof {
                    assert(it.remaining() =~= all.skip(seen + 1)) by {
                        assert(before =~= seq![*item] + it.remaining());
                        assert(all.skip(seen + 1) =~= all.skip(seen).drop_first());
                    }
                    seen = seen + 1;
                }
            },
        }
    }
}

proof fn lemma_counts_prefix(items: Seq<BookItem>, ignores: Seq<String>, k: int)
    requires
        0 <= k <= items.len(),
    ensures
        counts_of(items.take(k), ignores).len() <= counts_of(items, ignores).len(),
        counts_of(items, ignores).take(counts_of(items.take(k), ignores).len() as int) == counts_of(
            items.take(k),
            ignores,
        ),
    decreases items.len() - k,
{
    if k == items.len() {
        assert(items.take(k) =~= items);
        assert(counts_of(items, ignores).take(counts_of(items, ignores).len() as int) =~= counts_of(
            items,
            ignores,
        ));
    } else {
        lemma_counts_prefix(items, ignores, k + 1);
        let t = items.take(k + 1);
        assert(t.drop_last() =~= items.take(k));
        let a = counts_of(items.take(k), ignores);
        let b = counts_of(t, ignores);
        assert(b.len() >= a.len());
        assert(b.take(a.len() as int) =~= a);
        assert(counts_of(items, ignores).take(a.len() as int) =~= counts_of(items, ignores).take(
            b.len() as int,
        ).take(a.len() as int));
    }
}

/// The message reporting an error: the error, then each of its causes on
/// a line of its own after a tab and `Caused by: `.
pub open spec fn backtrace_text(chain: Seq<Seq<char>>) -> Seq<char>
    decreases chain.len(),
{
    if chain.len() <= 1 {
        if chain.len() == 0 {
            seq![]
        } else {
            chain[0]
        }
    } else {
        backtrace_text(chain.drop_last()) + "\n\tCaused by: "@ + chain.last()
    }
}

/// Builds the message reporting an error from the messages of the error
/// and its causes; see [`backtrace_text`].
pub fn backtrace_message(chain: &Vec<String>) -> (r: String)
    ensures
        r@ == backtrace_text(chain@.map_values(|s: String| s@)),
{
    let ghost cv = chain@.map_values(|s: String| s@);
    if chain.len() == 0 {
        return String::new();
    }
    let mut out = chars_of(chain[0].as_str());
    let sep = chars_of("\n\tCaused by: ");
    let mut i: usize = 1;
    assert(cv.take(1) =~= seq![cv[0]]);
    while i < chain.len()
        invariant
            1 <= i <= chain@.len(),
            cv == chain@.map_values(|s: String| s@),
            sep@ == "\n\tCaused by: "@,
            out@ == backtrace_text(cv.take(i as int)),
        decreases chain@.len() - i,
    {
        append_chars(&mut out, &sep);
        append_chars(&mut out, &chars_of(chain[i].as_str()));
        proof {
            let t = cv.take(i + 1);
            assert(t.drop_last() =~= cv.take(i as int));
            assert(t.last() == chain@[i as int]@);
        }
        i = i + 1;
    }
    assert(cv.take(chain@.len() as int) =~= cv);
    string_from_chars(&out)
}

} // verus!
