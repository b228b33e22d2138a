//! The redirects of the HTML output, grouped by the page they start at:
//! a redirect whose source has a `#` fragment overrides, for that
//! fragment, the redirect of its page.

use vstd::prelude::*;
use std::collections::HashMap;
use crate::chapter_page::fragment_names;
use crate::ids::string_views;
use crate::maps::map_entries;
use crate::preprocessors::{find_name, name_seq, names_sorted, sort_by_name};
use crate::text::{append_chars, chars_eq, chars_of, skip_char_from, slice_chars, string_from_chars, trim_leading};

verus! {

/// A string cut at its last `#`: the part before it and the part after it.
pub open spec fn rsplit_hash(s: Seq<char>) -> Option<(Seq<char>, Seq<char>)>
    decreases s.len(),
{
    if s.len() == 0 {
        None
    } else if s.last() == '#' {
        Some((s.drop_last(), seq![]))
    } else {
        match rsplit_hash(s.drop_last()) {
            Some((a, b)) => Some((a, b.push(s.last()))),
            None => None,
        }
    }
}

/// What a redirect of the configuration contributes: the page it starts
/// at, its fragment with the `#` where it has one, and its target.
pub open spec fn redirect_parts(source: Seq<char>, dest: Seq<char>) -> (Seq<char>, Option<Seq<char>>, Seq<char>) {
    match rsplit_hash(source) {
        Some((page, fragment)) => (page, Some("#"@ + fragment), dest),
        None => (source, None, dest),
    }
}

/// Whether some redirect of the configuration contributes `parts`.
pub open spec fn contributes(redirects: Map<String, String>, parts: (Seq<char>, Option<Seq<char>>, Seq<char>)) -> bool {
    exists|k: String| redirects.contains_key(k) && #[trigger] redirect_parts(k@, redirects[k]@) == parts
}

/// Whether a redirect of the configuration without a fragment starts at `page`.
pub open spec fn has_page_redirect(redirects: Map<String, String>, page: Seq<char>) -> bool {
    exists|k: String|
        redirects.contains_key(k) && (#[trigger] redirect_parts(k@, redirects[k]@)).0 == page
            && redirect_parts(k@, redirects[k]@).1 is None
}

/// The redirects that start at one page.
pub struct CombinedRedirect {
    /// The page the redirects start at.
    pub source: String,
    /// Where the page leads; empty where only redirects with fragments
    /// start at it.
    pub dest: String,
    /// Where fragments of the page lead, each fragment once with its `#`,
    /// ordered by fragment.
    pub fragments: Vec<(String, String)>,
}

/// The pages of combined redirects.
pub open spec fn sources(v: Seq<CombinedRedirect>) -> Seq<Seq<char>> {
    v.map_values(|c: CombinedRedirect| c.source@)
}

/// Cuts a string at its last `#`.
fn rsplit_hash_exec(s: &Vec<char>) -> (r: Option<(Vec<char>, Vec<char>)>)
    ensures
        r matches Some((a, b)) ==> rsplit_hash(s@) == Some((a@, b@)),
        r is None ==> rsplit_hash(s@) is None,
{
    let mut k = s.len();
    while k > 0 && s[k - 1] != '#'
        invariant
            k <= s@.len(),
            forall|j: int| k <= j < s@.len() ==> s@[j] != '#',
        decreases k,
    {
        k = k - 1;
    }
    proof {
        lemma_rsplit_at(s@, k as int);
    }
    if k == 0 {
        None
    } else {
        Some((slice_chars(s, 0, k - 1), slice_chars(s, k, s.len())))
    }
}

/// Where the last `#` of a string stands decides how it is cut.
proof fn lemma_rsplit_at(s: Seq<char>, k: int)
    requires
        0 <= k <= s.len(),
        forall|j: int| k <= j < s.len() ==> s[j] != '#',
        k > 0 ==> s[k - 1] == '#',
    ensures
        k == 0 ==> rsplit_hash(s) is None,
        k > 0 ==> rsplit_hash(s) == Some((s.subrange(0, k - 1), s.subrange(k, s.len() as int))),
    decreases s.len(),
{
    if s.len() > 0 && k < s.len() {
        let p = s.drop_last();
        assert forall|j: int| k <= j < p.len() implies p[j] != '#' by {
            assert(p[j] == s[j]);
        }
        if k > 0 {
            assert(p[k - 1] == s[k - 1]);
        }
        lemma_rsplit_at(p, k);
        if k > 0 {
            assert(p.subrange(0, k - 1) =~= s.subrange(0, k - 1));
            assert(p.subrange(k, p.len() as int).push(s.last()) =~= s.subrange(k, s.len() as int));
        }
    } else if s.len() > 0 {
        assert(s.drop_last() =~= s.subrange(0, k - 1));
        assert(s.subrange(k, s.len() as int) =~= seq![]);
    }
}

/// Whether `p` is one of the pairs that `names` and `vals` make.
pub open spec fn pair_of(names: Seq<String>, vals: Seq<String>, p: (String, String)) -> bool {
    exists|m: int| 0 <= m < names.len() && p == (names[m], vals[m])
}

/// Whether `(n, v)` is one of the pairs of `r`.
pub open spec fn pair_in(r: Seq<(String, String)>, n: String, v: String) -> bool {
    exists|x: int| 0 <= x < r.len() && r[x] == (n, v)
}

/// Orders pairs by their distinct first strings.
fn sort_pairs(names: &Vec<String>, vals: &Vec<String>) -> (r: Vec<(String, String)>)
    requires
        names@.len() == vals@.len(),
        string_views(names@).no_duplicates(),
    ensures
        r@.len() == names@.len(),
        names_sorted(fragment_names(r@)),
        forall|x: int| 0 <= x < r@.len() ==> pair_of(names@, vals@, #[trigger] r@[x]),
        forall|m: int| 0 <= m < names@.len() ==> pair_in(r@, #[trigger] names@[m], vals@[m]),
{
    let mut ids: Vec<u64> = Vec::new();
    let mut k: usize = 0;
    while k < names.len()
        invariant
            k <= names@.len(),
            ids@.len() == k,
            forall|m: int| 0 <= m < k ==> #[trigger] ids@[m] == m,
        decreases names@.len() - k,
    {
        ids.push(k as u64);
        k = k + 1;
    }
    assert forall|a: int, b: int| 0 <= a < b < ids@.len() implies ids@[a] != ids@[b] by {}
    let order = sort_by_name(&ids, names);
    let mut out: Vec<(String, String)> = Vec::new();
    let mut m: usize = 0;
    while m < order.len()
        invariant
            m <= order@.len(),
            order@.len() == names@.len(),
            names@.len() == vals@.len(),
            forall|x: int| 0 <= x < order@.len() ==> #[trigger] order@[x] < names@.len(),
            out@.len() == m,
            forall|x: int|
                0 <= x < m ==> (#[trigger] out@[x]) == (names@[order@[x] as int], vals@[order@[x] as int]),
        decreases order@.len() - m,
    {
        let id = order[m];
        assert(id < names.len());
        let j = id as usize;
        assert(j as int == id as int);
        out.push((names[j].clone(), vals[j].clone()));
        m = m + 1;
    }
    proof {
        let nv = string_views(names@);
        assert(fragment_names(out@) =~= name_seq(nv, order@));
        assert forall|x: int| 0 <= x < out@.len() implies pair_of(names@, vals@, #[trigger] out@[x]) by {
            let m = order@[x] as int;
            assert(out@[x] == (names@[m], vals@[m]));
        }
        assert forall|m: int| 0 <= m < names@.len() implies pair_in(out@, #[trigger] names@[m], vals@[m]) by {
            assert(ids@[m] == m as u64);
            assert(ids@.to_set().contains(m as u64));
            assert(order@.to_set().contains(m as u64));
            let p = choose|p: int| 0 <= p < order@.len() && order@[p] == m as u64;
            assert(out@[p] == (names@[m], vals@[m]));
        }
    }
    out
}

/// Whether some redirect of the configuration starts at `page`, with or
/// without a fragment.
pub open spec fn starts_at(redirects: Map<String, String>, page: Seq<char>) -> bool {
    exists|k: String| redirects.contains_key(k) && (#[trigger] redirect_parts(k@, redirects[k]@)).0 == page
}

/// Whether `c` holds exactly the redirects of the configuration that start
/// at its page: the target of the redirect without a fragment (empty where
/// there is none), and each fragment once with its target.
pub open spec fn combines(redirects: Map<String, String>, c: CombinedRedirect) -> bool {
    &&& has_page_redirect(redirects, c.source@) ==> contributes(redirects, (c.source@, None, c.dest@))
    &&& !has_page_redirect(redirects, c.source@) ==> c.dest@ == Seq::<char>::empty()
    &&& names_sorted(fragment_names(c.fragments@))
    &&& forall|j: int|
        0 <= j < c.fragments@.len() ==> contributes(
            redirects,
            (c.source@, Some((#[trigger] c.fragments@[j]).0@), c.fragments@[j].1@),
        )
    &&& forall|k: String|
        redirects.contains_key(k) && (#[trigger] redirect_parts(k@, redirects[k]@)).0 == c.source@
            && redirect_parts(k@, redirects[k]@).1 is Some ==> fragment_names(c.fragments@).contains(
            redirect_parts(k@, redirects[k]@).1->0,
        )
}

/// The view of optional characters.
pub open spec fn opt_chars(o: Option<Vec<char>>) -> Option<Seq<char>> {
    match o {
        Some(v) => Some(v@),
        None => None,
    }
}

/// What one redirect contributes; see [`redirect_parts`].
fn parts_of(k: &String, v: &String) -> (r: (Vec<char>, Option<Vec<char>>))
    ensures
        redirect_parts(k@, v@) == (r.0@, opt_chars(r.1), v@),
{
    let kc = chars_of(k.as_str());
    match rsplit_hash_exec(&kc) {
        Some((page, fragment)) => {
            let mut f = chars_of("#");
            append_chars(&mut f, &fragment);
            (page, Some(f))
        },
        None => (kc, None),
    }
}

/// The redirects of the configuration that start at `page`.
fn combine_for(page: &String, entries: &Vec<(&String, &String)>, Ghost(redirects): Ghost<Map<String, String>>) -> (r: CombinedRedirect)
    requires
        forall|i: int|
            0 <= i < entries@.len() ==> redirects.contains_key(*(#[trigger] entries@[i]).0)
                && redirects[*entries@[i].0] == *entries@[i].1,
        forall|k: String| #[trigger]
            redirects.contains_key(k) ==> exists|i: int| 0 <= i < entries@.len() && *entries@[i].0 == k,
    ensures
        r.source == *page,
        combines(redirects, r),
{
    let pv = chars_of(page.as_str());
    let mut dest = String::new();
    let mut found = false;
    let mut frags: Vec<String> = Vec::new();
    let mut dests: Vec<String> = Vec::new();
    let mut i: usize = 0;
    while i < entries.len()
        invariant
            i <= entries@.len(),
            pv@ == page@,
            forall|j: int|
                0 <= j < entries@.len() ==> redirects.contains_key(*(#[trigger] entries@[j]).0)
                    && redirects[*entries@[j].0] == *entries@[j].1,
            found ==> contributes(redirects, (page@, None, dest@)),
            !found ==> dest@ == Seq::<char>::empty(),
            !found ==> forall|j: int|
                0 <= j < i ==> !((#[trigger] redirect_parts((*entries@[j].0)@, (*entries@[j].1)@)).0 == page@
                    && redirect_parts((*entries@[j].0)@, (*entries@[j].1)@).1 is None),
            frags@.len() == dests@.len(),
            string_views(frags@).no_duplicates(),
            forall|m: int|
                0 <= m < frags@.len() ==> contributes(redirects, (page@, Some((#[trigger] frags@[m])@), dests@[m]@)),
            forall|j: int|
                0 <= j < i && (#[trigger] redirect_parts((*entries@[j].0)@, (*entries@[j].1)@)).0 == page@
                    && redirect_parts((*entries@[j].0)@, (*entries@[j].1)@).1 is Some ==> string_views(frags@).contains(
                    redirect_parts((*entries@[j].0)@, (*entries@[j].1)@).1->0,
                ),
        decreases entries@.len() - i,
    {
        let (src, val) = entries[i];
        let (pg, frag) = parts_of(src, val);
        proof {
            assert(redirects.contains_key(*src) && redirects[*src] == *val);
        }
        let ghost before_f = frags@;
        let ghost before_d = dests@;
        if chars_eq(&pg, &pv) {
            match frag {
                None => {
                    dest = val.clone();
                    found = true;
                },
                Some(f) => {
                    let fs = string_from_chars(&f);
                    let at = find_name(&frags, fs.as_str());
                    if at.is_none() {
                        frags.push(fs);
                        dests.push(val.clone());
                        proof {
                            assert(string_views(frags@) =~= string_views(before_f).push(f@));
                        }
                    }
                    proof {
                        assert forall|m: int| 0 <= m < frags@.len() implies contributes(
                            redirects,
                            (page@, Some((#[trigger] frags@[m])@), dests@[m]@),
                        ) by {
                            if m < before_f.len() {
                                assert(frags@[m] == before_f[m] && dests@[m] == before_d[m]);
                            }
                        }
                        assert(string_views(frags@).contains(f@)) by {
                            if at.is_none() {
                                assert(string_views(frags@)[before_f.len() as int] == f@);
                            } else {
                                assert(string_views(frags@)[at->0 as int] == f@);
                            }
                        }
                        assert forall|j: int|
                            0 <= j < i && (#[trigger] redirect_parts((*entries@[j].0)@, (*entries@[j].1)@)).0 == page@
                                && redirect_parts((*entries@[j].0)@, (*entries@[j].1)@).1 is Some implies string_views(
                                frags@,
                            ).contains(redirect_parts((*entries@[j].0)@, (*entries@[j].1)@).1->0) by {
                            let w = redirect_parts((*entries@[j].0)@, (*entries@[j].1)@).1->0;
                            assert(string_views(before_f).contains(w));
                            let q = choose|q: int| 0 <= q < before_f.len() && string_views(before_f)[q] == w;
                            assert(string_views(frags@)[q] == w);
                        }
                    }
                },
            }
        }
        i = i + 1;
    }
    let fragments = sort_pairs(&frags, &dests);
    let r = CombinedRedirect { source: page.clone(), dest, fragments };
    proof {
        if has_page_redirect(redirects, page@) && !found {
            let k = choose|k: String|
                redirects.contains_key(k) && (#[trigger] redirect_parts(k@, redirects[k]@)).0 == page@
                    && redirect_parts(k@, redirects[k]@).1 is None;
            let j = choose|j: int| 0 <= j < entries@.len() && *entries@[j].0 == k;
            assert(redirect_parts((*entries@[j].0)@, (*entries@[j].1)@).0 == page@);
        }
        assert forall|j: int| 0 <= j < fragments@.len() implies contributes(
            redirects,
            (page@, Some((#[trigger] fragments@[j]).0@), fragments@[j].1@),
        ) by {
            assert(pair_of(frags@, dests@, fragments@[j]));
            let m = choose|m: int| 0 <= m < frags@.len() && fragments@[j] == (frags@[m], dests@[m]);
            assert(contributes(redirects, (page@, Some(frags@[m]@), dests@[m]@)));
        }
        assert forall|k: String|
            redirects.contains_key(k) && (#[trigger] redirect_parts(k@, redirects[k]@)).0 == page@
                && redirect_parts(k@, redirects[k]@).1 is Some implies fragment_names(fragments@).contains(
                redirect_parts(k@, redirects[k]@).1->0,
            ) by {
            let j = choose|j: int| 0 <= j < entries@.len() && *entries@[j].0 == k;
            assert(redirect_parts((*entries@[j].0)@, (*entries@[j].1)@) == redirect_parts(k@, redirects[k]@));
            let w = redirect_parts(k@, redirects[k]@).1->0;
            assert(string_views(frags@).contains(w));
            let q = choose|q: int| 0 <= q < frags@.len() && string_views(frags@)[q] == w;
            assert(pair_in(fragments@, frags@[q], dests@[q]));
            let x = choose|x: int| 0 <= x < fragments@.len() && fragments@[x] == (frags@[q], dests@[q]);
            assert(fragment_names(fragments@)[x] == w);
        }
    }
    r
}

/// Groups the redirects of the configuration by the page they start at:
/// the part of a source before its last `#`, or the whole source where it
/// has none. One entry per page, ordered by page, each holding exactly the
/// redirects that start at it (see [`combines`]).
pub fn combine_fragment_redirects(redirects: &HashMap<String, String>) -> (r: Vec<CombinedRedirect>)
    ensures
        names_sorted(sources(r@)),
        forall|i: int| 0 <= i < r@.len() ==> starts_at(redirects@, (#[trigger] r@[i]).source@),
        forall|i: int| 0 <= i < r@.len() ==> combines(redirects@, #[trigger] r@[i]),
        forall|k: String| #[trigger]
            redirects@.contains_key(k) ==> sources(r@).contains(redirect_parts(k@, redirects@[k]@).0),
{
    let entries = map_entries(redirects);
    let ghost m = redirects@;
    let mut pages: Vec<String> = Vec::new();
    let mut i: usize = 0;
    while i < entries.len()
        invariant
            i <= entries@.len(),
            m == redirects@,
            forall|j: int|
                0 <= j < entries@.len() ==> m.contains_key(*(#[trigger] entries@[j]).0)
                    && m[*entries@[j].0] == *entries@[j].1,
            string_views(pages@).no_duplicates(),
            forall|q: int| 0 <= q < pages@.len() ==> starts_at(m, (#[trigger] pages@[q])@),
            forall|j: int|
                0 <= j < i ==> string_views(pages@).contains(
                    (#[trigger] redirect_parts((*entries@[j].0)@, (*entries@[j].1)@)).0,
                ),
        decreases entries@.len() - i,
    {
        let (src, val) = entries[i];
        let (pg, _) = parts_of(src, val);
        proof {
            assert(m.contains_key(*src) && m[*src] == *val);
            assert(redirect_parts(src@, m[*src]@).0 == pg@);
        }
        let ps = string_from_chars(&pg);
        let ghost before = pages@;
        let at = find_name(&pages, ps.as_str());
        if at.is_none() {
            pages.push(ps);
            proof {
                assert(string_views(pages@) =~= string_views(before).push(pg@));
            }
        }
        proof {
            assert forall|q: int| 0 <= q < pages@.len() implies starts_at(m, (#[trigger] pages@[q])@) by {
                if q < before.len() {
                    assert(pages@[q] == before[q]);
                }
            }
            assert(string_views(pages@).contains(pg@)) by {
                if at.is_none() {
                    assert(string_views(pages@)[before.len() as int] == pg@);
                } else {
                    assert(string_views(pages@)[at->0 as int] == pg@);
                }
            }
            assert forall|j: int| 0 <= j < i + 1 implies string_views(pages@).contains(
                (#[trigger] redirect_parts((*entries@[j].0)@, (*entries@[j].1)@)).0,
            ) by {
                if j < i {
                    let w = redirect_parts((*entries@[j].0)@, (*entries@[j].1)@).0;
                    assert(string_views(before).contains(w));
                    let q = choose|q: int| 0 <= q < before.len() && string_views(before)[q] == w;
                    assert(string_views(pages@)[q] == w);
                }
            }
        }
        i = i + 1;
    }
    let mut blanks: Vec<String> = Vec::new();
    while blanks.len() < pages.len()
        invariant
            blanks@.len() <= pages@.len(),
        decreases pages@.len() - blanks@.len(),
    {
        blanks.push(String::new());
    }
    let ordered = sort_pairs(&pages, &blanks);
    let mut out: Vec<CombinedRedirect> = Vec::new();
    let mut x: usize = 0;
    while x < ordered.len()
        invariant
            x <= ordered@.len(),
            m == redirects@,
            forall|j: int|
                0 <= j < entries@.len() ==> m.contains_key(*(#[trigger] entries@[j]).0)
                    && m[*entries@[j].0] == *entries@[j].1,
            forall|k: String| #[trigger]
                m.contains_key(k) ==> exists|j: int| 0 <= j < entries@.len() && *entries@[j].0 == k,
            out@.len() == x,
            forall|y: int| 0 <= y < x ==> (#[trigger] out@[y]).source == ordered@[y].0,
            forall|y: int| 0 <= y < x ==> combines(m, #[trigger] out@[y]),
        decreases ordered@.len() - x,
    {
        let c = combine_for(&ordered[x].0, &entries, Ghost(m));
        out.push(c);
        x = x + 1;
    }
    proof {
        assert(sources(out@) =~= fragment_names(ordered@));
        assert forall|y: int| 0 <= y < out@.len() implies starts_at(m, (#[trigger] out@[y]).source@) by {
            assert(pair_of(pages@, blanks@, ordered@[y]));
            let q = choose|q: int| 0 <= q < pages@.len() && ordered@[y] == (pages@[q], blanks@[q]);
            assert(starts_at(m, pages@[q]@));
        }
        assert forall|k: String| #[trigger] m.contains_key(k) implies sources(out@).contains(
            redirect_parts(k@, m[k]@).0,
        ) by {
            let j = choose|j: int| 0 <= j < entries@.len() && *entries@[j].0 == k;
            assert(redirect_parts((*entries@[j].0)@, (*entries@[j].1)@) == redirect_parts(k@, m[k]@));
            let w = redirect_parts(k@, m[k]@).0;
            assert(string_views(pages@).contains(w));
            let q = choose|q: int| 0 <= q < pages@.len() && string_views(pages@)[q] == w;
            assert(pair_in(ordered@, pages@[q], blanks@[q]));
            let y = choose|y: int| 0 <= y < ordered@.len() && ordered@[y] == (pages@[q], blanks@[q]);
            assert(sources(out@)[y] == w);
        }
    }
    out
}

/// A redirect that cannot be written.
#[derive(Debug, Clone, PartialEq)]
pub enum RedirectError {
    /// Only redirects with fragments start at the page (given without its
    /// leading slashes), so nothing says where the page itself leads.
    OnlyFragments(String),
}

/// The message of a redirect that cannot be written.
pub open spec fn redirect_error_message(e: RedirectError) -> Seq<char> {
    match e {
        RedirectError::OnlyFragments(page) => "redirect entry for `"@ + page@
            + "` only has source paths with `#` fragments\nThere must be an entry without the `#` fragment to determine the default destination."@,
    }
}

impl RedirectError {
    /// The message that reports the error.
    pub fn message(&self) -> (r: String)
        ensures
            r@ == redirect_error_message(*self),
    {
        match self {
            RedirectError::OnlyFragments(page) => {
                let mut out = chars_of("redirect entry for `");
                append_chars(&mut out, &chars_of(page.as_str()));
                append_chars(
                    &mut out,
                    &chars_of(
                        "` only has source paths with `#` fragments\nThere must be an entry without the `#` fragment to determine the default destination.",
                    ),
                );
                string_from_chars(&out)
            },
        }
    }
}

/// The file of a redirect's page, relative to the build directory: its
/// path without leading slashes.
pub fn redirect_file(source: &str) -> (r: String)
    ensures
        r@ == trim_leading(source@, '/'),
{
    let v = chars_of(source);
    let k = skip_char_from(&v, '/', 0);
    assert(v@.skip(0) =~= v@);
    assert(v@.skip(k as int) =~= v@.subrange(k as int, v@.len() as int));
    string_from_chars(&slice_chars(&v, k, v.len()))
}

/// What to do with the redirects of one page, given whether a file already
/// stands at its place: nothing (`Ok(false)`) where one does, since the page
/// maps its fragments itself; else write a redirecting page (`Ok(true)`),
/// which needs a target for the page itself.
pub fn redirect_action(c: &CombinedRedirect, file_exists: bool) -> (r: Result<bool, RedirectError>)
    ensures
        file_exists ==> r == Ok::<bool, RedirectError>(false),
        !file_exists && c.dest@.len() > 0 ==> r == Ok::<bool, RedirectError>(true),
        !file_exists && c.dest@.len() == 0 ==> (r matches Err(RedirectError::OnlyFragments(p))
            && p@ == trim_leading(c.source@, '/')),
{
    if file_exists {
        Ok(false)
    } else if c.dest.as_str().is_empty() {
        Err(RedirectError::OnlyFragments(redirect_file(c.source.as_str())))
    } else {
        Ok(true)
    }
}

} // verus!
