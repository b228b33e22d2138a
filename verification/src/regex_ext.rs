//! Access to the `regex` crate.

use vstd::prelude::*;

verus! {

/// What the `regex` crate finds for capture group `group` of `pattern` in
/// `haystack`: `None` when the pattern does not match (or does not compile),
/// `Some(None)` when it matches but the group takes no part in the match,
/// `Some(Some(text))` with the text of the group otherwise. The first match
/// is the one the crate's `Regex::captures` reports.
pub uninterp spec fn regex_group_match(
    pattern: Seq<char>,
    haystack: Seq<char>,
    group: nat,
) -> Option<Option<Seq<char>>>;

/// The view of a two-level optional string.
pub open spec fn opt_opt_view(r: Option<Option<String>>) -> Option<Option<Seq<char>>> {
    match r {
        None => None,
        Some(None) => Some(None),
        Some(Some(s)) => Some(Some(s@)),
    }
}

/// Compiles `pattern` with `regex::Regex::new` and reports capture group
/// `group` of `Regex::captures` on `haystack`. The contract only names the
/// result (`regex_group_match`): what a regular expression matches is not
/// written out here.
#[verifier::external_body]
pub(crate) fn regex_capture_group(pattern: &str, haystack: &str, group: usize) -> (r: Option<
    Option<String>,
>)
    ensures
        opt_opt_view(r) == regex_group_match(pattern@, haystack@, group as nat),
{
    let re = regex::Regex::new(pattern).ok()?;
    let caps = re.captures(haystack)?;
    Some(caps.get(group).map(|m| m.as_str().to_string()))
}

/// One match of a regular expression over bytes: the byte offsets where it
/// starts and ends, and the bytes of each capture group (group 0 is the
/// whole match; a group that takes no part in the match is `None`).
pub type ByteMatch = (usize, usize, Seq<Option<Seq<u8>>>);

/// What the `regex` crate reports for `pattern` over the bytes `haystack`
/// (`regex::bytes::Regex::captures_iter`), one entry per match in the order
/// the crate yields them: `None` when the pattern does not compile.
pub uninterp spec fn regex_bytes_matches(pattern: Seq<char>, haystack: Seq<u8>) -> Option<
    Seq<ByteMatch>,
>;

/// Matches lie inside a haystack of `len` bytes, each starting no later
/// than it ends, and follow one another without overlapping.
pub open spec fn matches_in_order(ms: Seq<ByteMatch>, len: nat) -> bool {
    &&& forall|i: int| 0 <= i < ms.len() ==> #[trigger] ms[i].0 <= ms[i].1 <= len
    &&& forall|i: int, j: int|
        #![trigger ms[i], ms[j]]
        0 <= i < j < ms.len() ==> ms[i].1 <= ms[j].0
}

/// Compiles `pattern` with `regex::bytes::Regex::new` and lists the
/// matches of `captures_iter` on `haystack`. The contract names the result
/// (`regex_bytes_matches`) and states what the crate documents of the
/// iterator: it yields successive non-overlapping matches, given by byte
/// offsets into the haystack. Which bytes a pattern matches is not written
/// out here.
#[verifier::external_body]
pub(crate) fn regex_bytes_captures(pattern: &str, haystack: &[u8]) -> (r: Option<
    Vec<(usize, usize, Vec<Option<Vec<u8>>>)>,
>)
    ensures
        r.deep_view() == regex_bytes_matches(pattern@, haystack@),
        r matches Some(ms) ==> matches_in_order(ms.deep_view(), haystack@.len()),
{
    let re = regex::bytes::Regex::new(pattern).ok()?;
    let to_match = |c: regex::bytes::Captures| {
        let whole = c.get(0).unwrap();
        (whole.start(), whole.end(), c.iter().map(|g| g.map(|m| m.as_bytes().to_vec())).collect())
    };
    Some(re.captures_iter(haystack).map(to_match).collect())
}

} // verus!
