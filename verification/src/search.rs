//! Pieces of the search index: how text is cut into words, and which
//! chapters are indexed.

use vstd::prelude::*;
use vstd::utf8::encode_utf8;
use std::collections::HashMap;
use crate::book::{preorder, Book, BookItem};
use crate::config::SearchChapterSettings;
use crate::maps::map_entries;
use crate::path_order::{
    components_lt, lemma_components_order, path_components, path_less, path_lt, path_starts_with,
    path_starts_with_exec, PathComponent,
};
use crate::text::{
    chars_of, is_whitespace, is_ws, lowercase, slice_chars, string_from_chars, to_lowercase, trim,
    trim_chars,
};

verus! {

/// Words longer than this many bytes are left out of the index.
pub const MAX_WORD_LENGTH_TO_INDEX: usize = 80;

/// Whether a character separates words: whitespace or a hyphen.
pub open spec fn is_word_separator(c: char) -> bool {
    is_ws(c) || c == '-'
}

/// The index of the first separator in `s`, or its length when there is
/// none.
pub open spec fn first_separator(s: Seq<char>) -> nat
    decreases s.len(),
{
    if s.len() == 0 {
        0
    } else if is_word_separator(s[0]) {
        0
    } else {
        1 + first_separator(s.drop_first())
    }
}

pub proof fn lemma_first_separator(s: Seq<char>)
    ensures
        first_separator(s) <= s.len(),
        forall|j: int| 0 <= j < first_separator(s) ==> !is_word_separator(#[trigger] s[j]),
        first_separator(s) < s.len() ==> is_word_separator(s[first_separator(s) as int]),
    decreases s.len(),
{
    if s.len() > 0 && !is_word_separator(s[0]) {
        lemma_first_separator(s.drop_first());
        assert forall|j: int| 0 <= j < first_separator(s) implies !is_word_separator(
            #[trigger] s[j],
        ) by {
            if j > 0 {
                assert(s[j] == s.drop_first()[j - 1]);
            }
        }
    }
}

proof fn lemma_first_separator_at(s: Seq<char>, i: int)
    requires
        0 <= i <= s.len(),
        forall|j: int| 0 <= j < i ==> !is_word_separator(#[trigger] s[j]),
        i < s.len() ==> is_word_separator(s[i]),
    ensures
        first_separator(s) == i,
    decreases s.len(),
{
    if s.len() > 0 && i > 0 {
        assert(!is_word_separator(s[0]));
        assert forall|j: int| 0 <= j < i - 1 implies !is_word_separator(
            #[trigger] s.drop_first()[j],
        ) by {
            assert(s.drop_first()[j] == s[j + 1]);
        }
        lemma_first_separator_at(s.drop_first(), i - 1);
    }
}

/// The pieces of `s` between separators, as `str::split` with a character
/// predicate yields them; empty pieces included.
pub open spec fn split_pieces(s: Seq<char>) -> Seq<Seq<char>>
    decreases s.len(),
{
    let i = first_separator(s);
    if i < s.len() {
        proof {
            lemma_first_separator(s);
        }
        seq![s.take(i as int)] + split_pieces(s.skip(i + 1 as int))
    } else {
        seq![s]
    }
}

/// The word a piece makes: the piece trimmed and lowercased.
pub open spec fn word_of(piece: Seq<char>) -> Seq<char> {
    lowercase(trim(piece))
}

/// The words the pieces make: each non-empty piece gives its word, kept
/// when its UTF-8 encoding is at most [`MAX_WORD_LENGTH_TO_INDEX`] bytes.
pub open spec fn words_of(pieces: Seq<Seq<char>>) -> Seq<Seq<char>>
    decreases pieces.len(),
{
    if pieces.len() == 0 {
        seq![]
    } else {
        let p = pieces.last();
        let rest = words_of(pieces.drop_last());
        if p.len() > 0 && encode_utf8(word_of(p)).len() <= MAX_WORD_LENGTH_TO_INDEX {
            rest.push(word_of(p))
        } else {
            rest
        }
    }
}

/// The words of a text for the search index.
pub open spec fn tokens(s: Seq<char>) -> Seq<Seq<char>> {
    words_of(split_pieces(s))
}

/// The views of a list of strings.
pub open spec fn string_seq_view(v: Seq<String>) -> Seq<Seq<char>> {
    v.map_values(|s: String| s@)
}

/// Cuts a text into the words of the search index, as the index's
/// tokenizer does for English: split at whitespace and hyphens, drop empty
/// pieces, trim and lowercase each, and leave out words longer than
/// [`MAX_WORD_LENGTH_TO_INDEX`] bytes.
pub fn tokenize(text: &str) -> (r: Vec<String>)
    ensures
        string_seq_view(r@) == tokens(text@),
{
    let v = chars_of(text);
    let mut out: Vec<String> = Vec::new();
    let ghost mut done: Seq<Seq<char>> = seq![];
    let mut start: usize = 0;
    assert(v@.skip(0) =~= v@);
    assert(string_seq_view(out@) =~= words_of(done));
    loop
        invariant
            v@ == text@,
            start <= v@.len(),
            split_pieces(v@) == done + split_pieces(v@.skip(start as int)),
            string_seq_view(out@) == words_of(done),
        decreases v@.len() - start,
    {
        let ghost rest = v@.skip(start as int);
        let mut end = start;
        while end < v.len() && !(is_whitespace(v[end]) || v[end] == '-')
            invariant
                start <= end <= v@.len(),
                rest == v@.skip(start as int),
                forall|j: int| start <= j < end ==> !is_word_separator(#[trigger] v@[j]),
            decreases v@.len() - end,
        {
            end = end + 1;
        }
        proof {
            assert forall|j: int| 0 <= j < end - start implies !is_word_separator(
                #[trigger] rest[j],
            ) by {
                assert(rest[j] == v@[start + j]);
            }
            if end < v.len() {
                assert(rest[end - start] == v@[end as int]);
            }
            lemma_first_separator_at(rest, end - start);
        }
        let piece = slice_chars(&v, start, end);
        assert(piece@ == rest.take(end - start));
        let ghost before = done;
        proof {
            done = done.push(piece@);
        }
        let ghost out_before = out@;
        assert(done.drop_last() =~= before);
        assert(done.last() == piece@);
        if piece.len() > 0 {
            let trimmed = trim_chars(&piece);
            let t = string_from_chars(&trimmed);
            let word = to_lowercase(t.as_str());
            assert(word@ == word_of(piece@));
            let n = word.as_str().as_bytes().len();
            assert(n == encode_utf8(word@).len());
            if n <= MAX_WORD_LENGTH_TO_INDEX {
                out.push(word);
                assert(string_seq_view(out@) =~= string_seq_view(out_before).push(word_of(piece@)));
                assert(words_of(done) == words_of(before).push(word_of(piece@)));
            } else {
                assert(words_of(done) == words_of(before));
            }
        } else {
            assert(words_of(done) == words_of(before));
        }
        assert(string_seq_view(out@) =~= words_of(done));
        if end < v.len() {
            proof {
                assert(rest.skip(end - start + 1) =~= v@.skip(end + 1));
                assert(split_pieces(rest) == seq![piece@] + split_pieces(v@.skip(end + 1)));
                assert(before + split_pieces(rest) =~= done + split_pieces(v@.skip(end + 1)));
            }
            start = end + 1;
        } else {
            proof {
                assert(rest.take(end - start) =~= rest);
                assert(split_pieces(rest) == seq![rest]);
                assert(before + split_pieces(rest) =~= done);
                assert(split_pieces(v@) == done);
                assert(tokens(text@) == words_of(done));
            }
            return out;
        }
    }
}

/// The entries of a map of chapter settings, each once, in the order the
/// map is walked.
fn settings_entries(map: &HashMap<String, SearchChapterSettings>) -> (r: Vec<
    (String, SearchChapterSettings),
>)
    ensures
        r@.len() == map@.len(),
        forall|i: int|
            0 <= i < r@.len() ==> map@.contains_key(#[trigger] r@[i].0) && map@[r@[i].0]
                == r@[i].1,
        forall|k: String| #[trigger]
            map@.contains_key(k) ==> exists|i: int| 0 <= i < r@.len() && r@[i].0 == k,
{
    let refs = map_entries(map);
    let mut out: Vec<(String, SearchChapterSettings)> = Vec::new();
    let mut i: usize = 0;
    while i < refs.len()
        invariant
            i <= refs@.len(),
            out@.len() == i,
            forall|j: int| 0 <= j < i ==> #[trigger] out@[j] == (*refs@[j].0, *refs@[j].1),
        decreases refs@.len() - i,
    {
        let (k, v) = refs[i];
        out.push((k.clone(), SearchChapterSettings { enable: v.enable }));
        i = i + 1;
    }
    assert forall|k: String| #[trigger] map@.contains_key(k) implies exists|j: int|
        0 <= j < out@.len() && out@[j].0 == k by {
        let j = choose|j: int| 0 <= j < refs@.len() && *refs@[j].0 == k;
        assert(out@[j] == (*refs@[j].0, *refs@[j].1));
    }
    assert forall|j: int| 0 <= j < out@.len() implies map@.contains_key(#[trigger] out@[j].0)
        && map@[out@[j].0] == out@[j].1 by {
        assert(out@[j] == (*refs@[j].0, *refs@[j].1));
        assert(refs@[j] == refs@[j]);
    }
    out
}

/// Chapter settings ordered by path, as `Path`'s `Ord` orders paths.
pub open spec fn settings_sorted(s: Seq<(String, SearchChapterSettings)>) -> bool {
    forall|i: int, j: int| 0 <= i < j < s.len() ==> !path_lt(#[trigger] s[j].0@, #[trigger] s[i].0@)
}

/// Puts `x` into an ordered list of settings after the entries that do not
/// come after it.
fn insert_sorted(out: &mut Vec<(String, SearchChapterSettings)>, x: (String, SearchChapterSettings))
    requires
        settings_sorted(old(out)@),
    ensures
        settings_sorted(final(out)@),
        final(out)@.to_multiset() == old(out)@.to_multiset().insert(x),
{
    let ghost s = out@;
    let mut p: usize = 0;
    while p < out.len() && !path_less(x.0.as_str(), out[p].0.as_str())
        invariant
            p <= out@.len(),
            out@ == s,
            forall|j: int| 0 <= j < p ==> !path_lt(x.0@, #[trigger] s[j].0@),
        decreases out@.len() - p,
    {
        p = p + 1;
    }
    let ghost xv = x;
    out.insert(p, x);
    proof {
        vstd::seq_lib::to_multiset_insert(s, p as int, xv);
        let t = out@;
        assert(t == s.insert(p as int, xv));
        assert forall|i: int, j: int| 0 <= i < j < t.len() implies !path_lt(
            #[trigger] t[j].0@,
            #[trigger] t[i].0@,
        ) by {
            if i < p && j < p {
                assert(t[i] == s[i] && t[j] == s[j]);
            } else if i < p && j == p {
                assert(t[i] == s[i] && t[j] == xv);
                lemma_components_order(
                    path_components(xv.0@),
                    path_components(s[i].0@),
                    path_components(xv.0@),
                );
            } else if i < p {
                assert(t[i] == s[i] && t[j] == s[j - 1]);
            } else if i == p {
                assert(t[i] == xv && t[j] == s[j - 1]);
                let cx = path_components(xv.0@);
                let cp = path_components(s[p as int].0@);
                let cj = path_components(s[j - 1].0@);
                assert(components_lt(cx, cp));
                lemma_components_order(cx, cp, cj);
                lemma_components_order(cp, cj, cx);
                lemma_components_order(cj, cx, cp);
            } else {
                assert(t[i] == s[i - 1] && t[j] == s[j - 1]);
            }
        }
    }
}

/// The chapter settings of the configuration, ordered by path (`Path`'s
/// order, component by component): each key of the map once, with its
/// settings.
pub fn sort_search_config(map: &HashMap<String, SearchChapterSettings>) -> (r: Vec<
    (String, SearchChapterSettings),
>)
    ensures
        r@.len() == map@.len(),
        settings_sorted(r@),
        forall|i: int|
            0 <= i < r@.len() ==> map@.contains_key(#[trigger] r@[i].0) && map@[r@[i].0]
                == r@[i].1,
        forall|k: String| #[trigger]
            map@.contains_key(k) ==> exists|i: int| 0 <= i < r@.len() && r@[i].0 == k,
{
    let entries = settings_entries(map);
    let mut out: Vec<(String, SearchChapterSettings)> = Vec::new();
    let mut i: usize = 0;
    assert(entries@.take(0) =~= out@);
    while i < entries.len()
        invariant
            i <= entries@.len(),
            settings_sorted(out@),
            out@.to_multiset() == entries@.take(i as int).to_multiset(),
        decreases entries@.len() - i,
    {
        let e = (entries[i].0.clone(), SearchChapterSettings { enable: entries[i].1.enable });
        assert(e == entries@[i as int]);
        insert_sorted(&mut out, e);
        proof {
            let t = entries@.take(i + 1);
            assert(t =~= entries@.take(i as int).push(e));
            vstd::seq_lib::to_multiset_build(entries@.take(i as int), e);
            assert(t.to_multiset() =~= entries@.take(i as int).to_multiset().insert(e));
        }
        i = i + 1;
    }
    proof {
        assert(entries@.take(entries@.len() as int) =~= entries@);
        vstd::seq_lib::to_multiset_len(out@);
        vstd::seq_lib::to_multiset_len(entries@);
        assert forall|k: int| 0 <= k < out@.len() implies map@.contains_key(#[trigger] out@[k].0)
            && map@[out@[k].0] == out@[k].1 by {
            vstd::seq_lib::to_multiset_contains(out@, out@[k]);
            vstd::seq_lib::to_multiset_contains(entries@, out@[k]);
            assert(out@.contains(out@[k]));
            let j = choose|j: int| 0 <= j < entries@.len() && entries@[j] == out@[k];
            assert(map@.contains_key(entries@[j].0));
        }
        assert forall|key: String| #[trigger] map@.contains_key(key) implies exists|k: int|
            0 <= k < out@.len() && out@[k].0 == key by {
            let j = choose|j: int| 0 <= j < entries@.len() && entries@[j].0 == key;
            vstd::seq_lib::to_multiset_contains(entries@, entries@[j]);
            vstd::seq_lib::to_multiset_contains(out@, entries@[j]);
            assert(entries@.contains(entries@[j]));
            let k = choose|k: int| 0 <= k < out@.len() && out@[k] == entries@[j];
            assert(out@[k].0 == key);
        }
    }
    out
}

/// Whether a chapter at `source` is indexed, by the settings: going
/// through them in order, each one whose path `source` starts with and that
/// says whether to index overrides what came before.
pub open spec fn chapter_enable(cs: Seq<(String, SearchChapterSettings)>, source: Seq<char>) -> Option<
    bool,
>
    decreases cs.len(),
{
    if cs.len() == 0 {
        None
    } else {
        let prev = chapter_enable(cs.drop_last(), source);
        let last = cs.last();
        if path_starts_with(source, last.0@) {
            match last.1.enable {
                Some(b) => Some(b),
                None => prev,
            }
        } else {
            prev
        }
    }
}

/// The search settings for the chapter whose source is `source_path`; see
/// [`chapter_enable`].
pub fn get_chapter_settings(
    chapter_configs: &Vec<(String, SearchChapterSettings)>,
    source_path: &str,
) -> (r: SearchChapterSettings)
    ensures
        r.enable == chapter_enable(chapter_configs@, source_path@),
{
    let mut result = SearchChapterSettings { enable: None };
    let mut i: usize = 0;
    while i < chapter_configs.len()
        invariant
            i <= chapter_configs@.len(),
            result.enable == chapter_enable(chapter_configs@.take(i as int), source_path@),
        decreases chapter_configs@.len() - i,
    {
        let (path, config) = (&chapter_configs[i].0, &chapter_configs[i].1);
        if path_starts_with_exec(source_path, path.as_str()) {
            result.enable = match config.enable {
                Some(b) => Some(b),
                None => result.enable,
            };
        }
        proof {
            let t = chapter_configs@.take(i + 1);
            assert(t.drop_last() =~= chapter_configs@.take(i as int));
            assert(t.last() == chapter_configs@[i as int]);
        }
        i = i + 1;
    }
    assert(chapter_configs@.take(chapter_configs@.len() as int) =~= chapter_configs@);
    result
}

proof fn lemma_proper_prefix_lt(a: Seq<PathComponent>, b: Seq<PathComponent>)
    requires
        a.len() < b.len(),
        b.take(a.len() as int) == a,
    ensures
        components_lt(a, b),
    decreases a.len(),
{
    if a.len() > 0 {
        assert(b[0] == b.take(a.len() as int)[0]);
        assert(b.drop_first().take(a.len() - 1) =~= a.drop_first());
        lemma_proper_prefix_lt(a.drop_first(), b.drop_first());
    }
}

proof fn lemma_enable_after(
    cs: Seq<(String, SearchChapterSettings)>,
    source: Seq<char>,
    i: int,
    k: int,
)
    requires
        0 <= i < k <= cs.len(),
        path_starts_with(source, cs[i].0@),
        cs[i].1.enable is Some,
        forall|j: int|
            i < j < k ==> !(path_starts_with(source, #[trigger] cs[j].0@) && cs[j].1.enable is Some),
    ensures
        chapter_enable(cs.take(k), source) == cs[i].1.enable,
    decreases k,
{
    let t = cs.take(k);
    assert(t.last() == cs[k - 1]);
    assert(t.drop_last() =~= cs.take(k - 1));
    if k > i + 1 {
        lemma_enable_after(cs, source, i, k - 1);
    }
}

/// More specific paths take precedence: in settings ordered by path, the
/// setting of the longest path that a chapter's source starts with and
/// that says whether to index is the one that counts.
pub proof fn law_more_specific_chapter_settings_win(
    cs: Seq<(String, SearchChapterSettings)>,
    source: Seq<char>,
    i: int,
)
    requires
        settings_sorted(cs),
        0 <= i < cs.len(),
        path_starts_with(source, cs[i].0@),
        cs[i].1.enable is Some,
        forall|j: int|
            0 <= j < cs.len() && j != i && path_starts_with(source, #[trigger] cs[j].0@)
                && cs[j].1.enable is Some ==> path_components(cs[j].0@).len() < path_components(
                cs[i].0@,
            ).len(),
    ensures
        chapter_enable(cs, source) == cs[i].1.enable,
{
    assert forall|j: int| i < j < cs.len() implies !(path_starts_with(source, #[trigger] cs[j].0@)
        && cs[j].1.enable is Some) by {
        if path_starts_with(source, cs[j].0@) && cs[j].1.enable is Some {
            let sc = path_components(source);
            let ci = path_components(cs[i].0@);
            let cj = path_components(cs[j].0@);
            assert(ci.take(cj.len() as int) =~= sc.take(cj.len() as int));
            lemma_proper_prefix_lt(cj, ci);
            assert(!path_lt(cs[j].0@, cs[i].0@));
        }
    }
    lemma_enable_after(cs, source, i, cs.len() as int);
    assert(cs.take(cs.len() as int) =~= cs);
}

/// The path by which a chapter's search settings are looked up: its
/// source path, or else its path.
pub open spec fn settings_path(path: Option<String>, source_path: Option<String>) -> Option<
    Seq<char>,
> {
    match source_path {
        Some(s) => Some(s@),
        None => match path {
            Some(p) => Some(p@),
            None => None,
        },
    }
}

/// Whether an item is a chapter that is not a draft and whose settings
/// path starts with `key`.
pub open spec fn item_matches_key(item: BookItem, key: Seq<char>) -> bool {
    match item {
        BookItem::Chapter(ch) => ch.path is Some && match settings_path(ch.path, ch.source_path) {
            Some(sp) => path_starts_with(sp, key),
            None => false,
        },
        _ => false,
    }
}

/// Whether some chapter of the book matches the settings key.
pub open spec fn key_matches_book(book: Book, key: Seq<char>) -> bool {
    exists|i: int|
        0 <= i < preorder(book.sections@).len() && item_matches_key(
            #[trigger] preorder(book.sections@)[i],
            key,
        )
}

/// Whether some chapter of the book matches a settings key.
fn key_found(book: &Book, key: &str) -> (r: bool)
    ensures
        r == key_matches_book(*book, key@),
{
    let mut it = book.iter();
    let ghost all = preorder(book.sections@);
    let ghost mut seen: int = 0;
    loop
        invariant
            0 <= seen <= all.len(),
            all == preorder(book.sections@),
            it.remaining() == all.skip(seen),
            forall|j: int| 0 <= j < seen ==> !item_matches_key(#[trigger] all[j], key@),
        decreases it.remaining().len(),
    {
        let ghost before = it.remaining();
        match it.next() {
            None => {
                assert(seen == all.len()) by {
                    assert(all.skip(seen).len() == 0);
                }
                return false;
            },
            Some(item) => {
                assert(all[seen] == *item) by {
                    assert(before[0] == *item);
                }
                let hit = match item {
                    BookItem::Chapter(ch) => {
                        if ch.path.is_some() {
                            let sp = match &ch.source_path {
                                Some(s) => Some(s),
                                None => ch.path.as_ref(),
                            };
                            match sp {
                                Some(p) => path_starts_with_exec(p.as_str(), key),
                                None => false,
                            }
                        } else {
                            false
                        }
                    },
                    _ => false,
                };
                if hit {
                    assert(item_matches_key(all[seen], key@));
                    return true;
                }
                proof {
                    assert(it.remaining() =~= all.skip(seen + 1)) by {
                        assert(before =~= seq![*item] + it.remaining());
                        assert(all.skip(seen + 1) =~= all.skip(seen).drop_first());
                    }
                    seen = seen + 1;
                }
            },
        }
    }
}

/// Checks that every chapter settings key matches some chapter of the book
/// that is not a draft; the first key that matches none is the error.
pub fn validate_chapter_config(
    chapter_configs: &Vec<(String, SearchChapterSettings)>,
    book: &Book,
) -> (r: Result<(), String>)
    ensures
        r is Ok <==> forall|i: int|
            0 <= i < chapter_configs@.len() ==> key_matches_book(
                *book,
                #[trigger] chapter_configs@[i].0@,
            ),
        r matches Err(k) ==> exists|i: int|
            0 <= i < chapter_configs@.len() && k@ == chapter_configs@[i].0@ && !key_matches_book(
                *book,
                k@,
            ) && forall|j: int|
                0 <= j < i ==> key_matches_book(*book, #[trigger] chapter_configs@[j].0@),
{
    let mut i: usize = 0;
    while i < chapter_configs.len()
        invariant
            i <= chapter_configs@.len(),
            forall|j: int|
                0 <= j < i ==> key_matches_book(*book, #[trigger] chapter_configs@[j].0@),
        decreases chapter_configs@.len() - i,
    {
        let key = &chapter_configs[i].0;
        if !key_found(book, key.as_str()) {
            return Err(key.clone());
        }
        i = i + 1;
    }
    Ok(())
}

} // verus!
