//! HTML ids: generation from heading text, and making them unique.

use vstd::prelude::*;
use crate::text::{
    alphanumeric, append_chars, chars_eq, chars_of, decimal, digit_char, is_alphanumeric,
    is_whitespace, is_ws, lowercase, push_decimal, string_from_chars, to_lowercase, trim,
    trim_chars,
};

verus! {

/// The views of a sequence of strings.
pub open spec fn string_views(v: Seq<String>) -> Seq<Seq<char>> {
    v.map_values(|s: String| s@)
}

/// The `k`-th alternative for an id that is already taken: the id, a dash
/// and `k` in decimal.
pub open spec fn candidate(id: Seq<char>, k: nat) -> Seq<char> {
    id + seq!['-'] + decimal(k)
}

proof fn lemma_decimal_len(n: nat)
    ensures
        decimal(n).len() >= 1,
        n >= 10 ==> decimal(n).len() >= 2,
    decreases n,
{
    if n >= 10 {
        lemma_decimal_len(n / 10);
    }
}

proof fn lemma_digit_char_injective(a: nat, b: nat)
    requires
        a < 10,
        b < 10,
        digit_char(a) == digit_char(b),
    ensures
        a == b,
{
}

/// Different numbers have different decimal representations.
pub proof fn lemma_decimal_injective(a: nat, b: nat)
    requires
        decimal(a) == decimal(b),
    ensures
        a == b,
    decreases a,
{
    lemma_decimal_len(a);
    lemma_decimal_len(b);
    if a < 10 && b < 10 {
        assert(decimal(a)[0] == digit_char(a));
        assert(decimal(b)[0] == digit_char(b));
        lemma_digit_char_injective(a, b);
    } else if a >= 10 && b >= 10 {
        let da = decimal(a / 10);
        let db = decimal(b / 10);
        assert(decimal(a) == da + seq![digit_char(a % 10)]);
        assert(decimal(b) == db + seq![digit_char(b % 10)]);
        assert(decimal(a).last() == digit_char(a % 10));
        assert(decimal(b).last() == digit_char(b % 10));
        lemma_digit_char_injective(a % 10, b % 10);
        assert(decimal(a).drop_last() == da);
        assert(decimal(b).drop_last() == db);
        lemma_decimal_injective(a / 10, b / 10);
    }
}

/// Different alternatives for one id are different texts.
pub proof fn lemma_candidate_injective(id: Seq<char>, a: nat, b: nat)
    requires
        candidate(id, a) == candidate(id, b),
    ensures
        a == b,
{
    let n = id.len() + 1int;
    assert(candidate(id, a).skip(n) == decimal(a));
    assert(candidate(id, b).skip(n) == decimal(b));
    lemma_decimal_injective(a, b);
}

fn contains_view(used: &Vec<String>, s: &[char]) -> (r: bool)
    ensures
        r == string_views(used@).contains(s@),
{
    let mut i: usize = 0;
    while i < used.len()
        invariant
            i <= used@.len(),
            forall|j: int| 0 <= j < i ==> used@[j]@ != s@,
        decreases used@.len() - i,
    {
        let u = chars_of(used[i].as_str());
        if chars_eq(&u, s) {
            assert(string_views(used@)[i as int] == s@);
            return true;
        }
        i = i + 1;
    }
    proof {
        if string_views(used@).contains(s@) {
            let j = choose|j: int| 0 <= j < string_views(used@).len() && string_views(used@)[j] == s@;
            assert(used@[j]@ == s@);
        }
    }
    false
}

/// What [`unique_id`] returns for `id`, given the ids already in use: `id`
/// itself if it is free, otherwise its first free alternative.
pub open spec fn is_unique_choice(id: Seq<char>, used: Seq<Seq<char>>, r: Seq<char>) -> bool {
    if !used.contains(id) {
        r == id
    } else {
        exists|k: nat|
            1 <= k && r == candidate(id, k) && !used.contains(candidate(id, k)) && forall|j: nat|
                1 <= j < k ==> used.contains(#[trigger] candidate(id, j))
    }
}

/// Make sure an HTML id is unique.
///
/// Keeps a list of all previously returned ids; if the requested id is
/// already used, numeric suffixes (-1, -2, ...) are tried until an unused one
/// is found. The returned id is added to `used`.
pub fn unique_id(id: &str, used: &mut Vec<String>) -> (r: String)
    requires
        old(used)@.len() < u32::MAX,
    ensures
        is_unique_choice(id@, string_views(old(used)@), r@),
        !string_views(old(used)@).contains(r@),
        final(used)@ == old(used)@.push(r),
{
    let idv = chars_of(id);
    if !contains_view(used, &idv) {
        let s = string_from_chars(&idv);
        used.push(s.clone());
        return s;
    }
    let ghost uv = string_views(used@);
    let ghost mut tried: Set<Seq<char>> = Set::empty();
    let mut counter: u32 = 1;
    loop
        invariant
            used@ == old(used)@,
            idv@ == id@,
            uv == string_views(used@),
            uv.contains(id@),
            used@.len() < u32::MAX,
            1 <= counter <= used@.len() + 1,
            tried.finite(),
            tried.len() == counter - 1,
            tried.subset_of(uv.to_set()),
            forall|s: Seq<char>| #[trigger] tried.contains(s) ==> exists|k: nat|
                1 <= k < counter && s == candidate(id@, k),
            forall|j: nat| 1 <= j < counter ==> uv.contains(#[trigger] candidate(id@, j)),
        decreases used@.len() + 1 - counter,
    {
        let mut cand: Vec<char> = Vec::new();
        append_chars(&mut cand, &idv);
        cand.push('-');
        push_decimal(&mut cand, counter);
        assert(cand@ =~= candidate(id@, counter as nat));
        if !contains_view(used, &cand) {
            let s = string_from_chars(&cand);
            used.push(s.clone());
            assert(is_unique_choice(id@, uv, s@));
            return s;
        }
        proof {
            let c = candidate(id@, counter as nat);
            if tried.contains(c) {
                let k = choose|k: nat| 1 <= k < counter && c == candidate(id@, k);
                lemma_candidate_injective(id@, k, counter as nat);
            }
            let t2 = tried.insert(c);
            assert(t2.len() == tried.len() + 1);
            assert(t2.subset_of(uv.to_set()));
            vstd::set_lib::lemma_len_subset(t2, uv.to_set());
            uv.lemma_cardinality_of_set();
            assert forall|s: Seq<char>| #[trigger] t2.contains(s) implies exists|k: nat|
                1 <= k < counter + 1 && s == candidate(id@, k) by {
                if s == c {
                    assert(1 <= counter as nat && s == candidate(id@, counter as nat));
                } else {
                    let k = choose|k: nat| 1 <= k < counter && s == candidate(id@, k);
                    assert(1 <= k < counter + 1 && s == candidate(id@, k));
                }
            }
            tried = t2;
        }
        counter = counter + 1;
    }
}

/// What a character of lowercased heading text contributes to an id:
/// alphanumerics, `_` and `-` are kept, whitespace becomes `-`, anything
/// else is dropped.
pub open spec fn id_char(c: char) -> Seq<char> {
    if alphanumeric(c) || c == '_' || c == '-' {
        seq![c]
    } else if is_ws(c) {
        seq!['-']
    } else {
        seq![]
    }
}

/// The id contributions of every character of `s`, in order.
pub open spec fn id_chars(s: Seq<char>) -> Seq<char>
    decreases s.len(),
{
    if s.len() == 0 {
        seq![]
    } else {
        id_chars(s.drop_last()) + id_char(s.last())
    }
}

/// The id generated from heading text: trimmed, lowercased, then filtered
/// character by character.
pub open spec fn id_for(content: Seq<char>) -> Seq<char> {
    id_chars(lowercase(trim(content)))
}

/// Generates an HTML id from the given text.
pub fn id_from_content(content: &str) -> (r: String)
    ensures
        r@ == id_for(content@),
{
    let v = chars_of(content);
    let t = trim_chars(&v);
    let ts = string_from_chars(&t);
    let lower = to_lowercase(ts.as_str());
    let l = chars_of(lower.as_str());
    let mut out: Vec<char> = Vec::new();
    let mut i: usize = 0;
    while i < l.len()
        invariant
            i <= l@.len(),
            out@ == id_chars(l@.take(i as int)),
        decreases l@.len() - i,
    {
        let c = l[i];
        if is_alphanumeric(c) || c == '_' || c == '-' {
            out.push(c);
        } else if is_whitespace(c) {
            out.push('-');
        }
        assert(l@.take(i + 1).drop_last() == l@.take(i as int));
        i = i + 1;
    }
    assert(l@.take(l@.len() as int) == l@);
    string_from_chars(&out)
}

} // verus!
