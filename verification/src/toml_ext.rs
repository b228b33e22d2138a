//! Reading, inserting and deleting values of a TOML document by dotted
//! keys such as `output.html.fold`.
//!
//! A document is a tree of tables whose leaves are the other TOML values;
//! the leaves are carried as they are. A table is held as its entries in
//! order; where a key occurs more than once, its last entry is the one
//! that counts.

use vstd::prelude::*;
use crate::text::{chars_eq, chars_of, find_char_from, first_index_of, lemma_first_index_of, slice_chars, string_from_chars};

verus! {

/// A TOML value: a table of named values, or any other value.
#[derive(Debug, PartialEq)]
pub enum TomlValue<L> {
    /// A table, as its entries.
    Table(Vec<(String, TomlValue<L>)>),
    /// Any value that is not a table.
    Leaf(L),
}

/// A TOML value as a mathematical value.
pub enum TomlView<L> {
    /// A table.
    Table(Map<Seq<char>, TomlView<L>>),
    /// Any value that is not a table.
    Leaf(L),
}

/// The view of a value.
pub open spec fn toml_view<L>(v: TomlValue<L>) -> TomlView<L>
    decreases v, 1nat,
{
    match v {
        TomlValue::Table(es) => TomlView::Table(entries_view(es@)),
        TomlValue::Leaf(l) => TomlView::Leaf(l),
    }
}

/// The table that entries make: a later entry of a key replaces an earlier one.
pub open spec fn entries_view<L>(es: Seq<(String, TomlValue<L>)>) -> Map<Seq<char>, TomlView<L>>
    decreases es, 0nat,
{
    if es.len() == 0 {
        Map::empty()
    } else {
        let i = es.len() - 1;
        entries_view(es.subrange(0, i)).insert(es[i].0@, toml_view(es[i].1))
    }
}


/// A dotted key cut at its first dot: the part before it and the part after it.
pub open spec fn key_split(key: Seq<char>) -> Option<(Seq<char>, Seq<char>)> {
    let i = first_index_of(key, '.');
    if i < key.len() {
        Some((key.subrange(0, i), key.subrange(i + 1, key.len() as int)))
    } else {
        None
    }
}

/// The entry of a table under `key`; nothing for a value that is not a table.
pub open spec fn view_get<L>(v: TomlView<L>, key: Seq<char>) -> Option<TomlView<L>> {
    match v {
        TomlView::Table(m) => if m.contains_key(key) { Some(m[key]) } else { None },
        TomlView::Leaf(_) => None,
    }
}

/// The value under a dotted key: each part of the key names an entry of the
/// table that the part before it names.
pub open spec fn view_read<L>(v: TomlView<L>, key: Seq<char>) -> Option<TomlView<L>>
    decreases key.len(),
{
    match key_split(key) {
        Some((head, tail)) => {
            proof { lemma_key_split(key); }
            match view_get(v, head) {
                Some(child) => view_read(child, tail),
                None => None,
            }
        },
        None => view_get(v, key),
    }
}

/// The entries of a table; none for a value that is not a table.
pub open spec fn view_entries<L>(v: TomlView<L>) -> Map<Seq<char>, TomlView<L>> {
    match v {
        TomlView::Table(m) => m,
        TomlView::Leaf(_) => Map::empty(),
    }
}

/// `v` with `x` put under a dotted key. A value on the way that is not a
/// table becomes an empty table first, and a missing table is made.
pub open spec fn view_insert<L>(v: TomlView<L>, key: Seq<char>, x: TomlView<L>) -> TomlView<L>
    decreases key.len(),
{
    let m = view_entries(v);
    match key_split(key) {
        Some((head, tail)) => {
            proof { lemma_key_split(key); }
            let child = if m.contains_key(head) { m[head] } else { TomlView::Table(Map::empty()) };
            TomlView::Table(m.insert(head, view_insert(child, tail, x)))
        },
        None => TomlView::Table(m.insert(key, x)),
    }
}

/// `v` with the value under a dotted key taken out, and that value; `v`
/// unchanged and nothing where the key names no value.
pub open spec fn view_delete<L>(v: TomlView<L>, key: Seq<char>) -> (TomlView<L>, Option<TomlView<L>>)
    decreases key.len(),
{
    match v {
        TomlView::Leaf(_) => (v, None),
        TomlView::Table(m) => match key_split(key) {
            Some((head, tail)) => {
                proof { lemma_key_split(key); }
                if m.contains_key(head) {
                    let (child, r) = view_delete(m[head], tail);
                    (TomlView::Table(m.insert(head, child)), r)
                } else {
                    (v, None)
                }
            },
            None => (TomlView::Table(m.remove(key)), view_get(v, key)),
        },
    }
}

/// The view of an optional value.
pub open spec fn opt_view<L>(o: Option<TomlValue<L>>) -> Option<TomlView<L>> {
    match o {
        Some(x) => Some(toml_view(x)),
        None => None,
    }
}

pub proof fn lemma_key_split(key: Seq<char>)
    ensures
        key_split(key) matches Some((head, tail)) ==> tail.len() < key.len() && head.len() < key.len(),
{
    lemma_first_index_of(key, '.');
}


/// Adding an entry at the end puts its value under its key.
pub proof fn lemma_entries_push<L>(es: Seq<(String, TomlValue<L>)>, e: (String, TomlValue<L>))
    ensures
        entries_view(es.push(e)) == entries_view(es).insert(e.0@, toml_view(e.1)),
{
    assert(es.push(e).subrange(0, es.len() as int) =~= es);
}

/// A key that no entry has is not in the table.
pub proof fn lemma_entries_absent<L>(es: Seq<(String, TomlValue<L>)>, key: Seq<char>)
    requires
        forall|j: int| 0 <= j < es.len() ==> (#[trigger] es[j]).0@ != key,
    ensures
        !entries_view(es).contains_key(key),
    decreases es.len(),
{
    if es.len() > 0 {
        let p = es.subrange(0, es.len() - 1);
        assert forall|j: int| 0 <= j < p.len() implies (#[trigger] p[j]).0@ != key by {
            assert(p[j] == es[j]);
        }
        lemma_entries_absent(p, key);
    }
}

/// The last entry of a key gives the value under it.
pub proof fn lemma_entries_last<L>(es: Seq<(String, TomlValue<L>)>, key: Seq<char>, i: int)
    requires
        0 <= i < es.len(),
        es[i].0@ == key,
        forall|j: int| i < j < es.len() ==> (#[trigger] es[j]).0@ != key,
    ensures
        entries_view(es).contains_key(key),
        entries_view(es)[key] == toml_view(es[i].1),
    decreases es.len(),
{
    if i < es.len() - 1 {
        let p = es.subrange(0, es.len() - 1);
        assert forall|j: int| i < j < p.len() implies (#[trigger] p[j]).0@ != key by {
            assert(p[j] == es[j]);
        }
        assert(p[i] == es[i]);
        lemma_entries_last(p, key, i);
    }
}

/// Taking out one entry of a key and then the key from the table leaves
/// what taking the key out of the whole table leaves.
pub proof fn lemma_entries_remove_at<L>(es: Seq<(String, TomlValue<L>)>, i: int)
    requires
        0 <= i < es.len(),
    ensures
        entries_view(es.remove(i)).remove(es[i].0@) == entries_view(es).remove(es[i].0@),
    decreases es.len(),
{
    let key = es[i].0@;
    let n = es.len() - 1;
    let p = es.subrange(0, n);
    if i == n {
        assert(es.remove(i) =~= p);
        assert(entries_view(p).remove(key) =~= entries_view(p).insert(key, toml_view(es[n].1)).remove(key));
    } else {
        let r = es.remove(i);
        assert(r.subrange(0, r.len() - 1) =~= p.remove(i));
        assert(r[r.len() - 1] == es[n]);
        assert(p[i] == es[i]);
        lemma_entries_remove_at(p, i);
        let k2 = es[n].0@;
        let v2 = toml_view(es[n].1);
        assert(entries_view(r) == entries_view(p.remove(i)).insert(k2, v2));
        assert(entries_view(es) == entries_view(p).insert(k2, v2));
        if k2 == key {
            assert(entries_view(p.remove(i)).insert(k2, v2).remove(key) =~= entries_view(p.remove(i)).remove(key));
            assert(entries_view(p).insert(k2, v2).remove(key) =~= entries_view(p).remove(key));
        } else {
            assert(entries_view(p.remove(i)).insert(k2, v2).remove(key) =~= entries_view(p.remove(i)).remove(key).insert(k2, v2));
            assert(entries_view(p).insert(k2, v2).remove(key) =~= entries_view(p).remove(key).insert(k2, v2));
        }
    }
}


/// Whether an entry's name is the given key.
fn name_is(name: &String, key: &[char]) -> (r: bool)
    ensures
        r == (name@ == key@),
{
    let n = chars_of(name.as_str());
    chars_eq(n.as_slice(), key)
}

/// Where the last entry of a key stands, if there is one.
fn last_entry_of<L>(es: &Vec<(String, TomlValue<L>)>, key: &[char]) -> (r: Option<usize>)
    ensures
        r is None ==> forall|j: int| 0 <= j < es@.len() ==> (#[trigger] es@[j]).0@ != key@,
        r matches Some(i) ==> {
            &&& i < es@.len()
            &&& es@[i as int].0@ == key@
            &&& forall|j: int| i < j < es@.len() ==> (#[trigger] es@[j]).0@ != key@
        },
{
    let mut k = es.len();
    while k > 0
        invariant
            k <= es@.len(),
            forall|j: int| k <= j < es@.len() ==> (#[trigger] es@[j]).0@ != key@,
        decreases k,
    {
        if name_is(&es[k - 1].0, key) {
            return Some(k - 1);
        }
        k = k - 1;
    }
    None
}

/// Takes every entry of a key out of a table, giving the value that was
/// under the key.
fn take_key<L>(es: &mut Vec<(String, TomlValue<L>)>, key: &[char]) -> (r: Option<TomlValue<L>>)
    ensures
        entries_view(final(es)@) == entries_view(old(es)@).remove(key@),
        opt_view(r) == (if entries_view(old(es)@).contains_key(key@) {
            Some(entries_view(old(es)@)[key@])
        } else {
            None
        }),
{
    let ghost orig = es@;
    let mut found: Option<TomlValue<L>> = None;
    loop
        invariant
            entries_view(es@).remove(key@) == entries_view(orig).remove(key@),
            found is None ==> es@ == orig,
            found matches Some(x) ==> entries_view(orig).contains_key(key@)
                && entries_view(orig)[key@] == toml_view(x),
        ensures
            entries_view(es@) == entries_view(orig).remove(key@),
            found is None ==> !entries_view(orig).contains_key(key@),
            found matches Some(x) ==> entries_view(orig).contains_key(key@)
                && entries_view(orig)[key@] == toml_view(x),
        decreases es@.len(),
    {
        match last_entry_of(es, key) {
            None => {
                proof {
                    lemma_entries_absent(es@, key@);
                    assert(entries_view(es@).remove(key@) =~= entries_view(es@));
                }
                break;
            },
            Some(i) => {
                proof {
                    lemma_entries_last(es@, key@, i as int);
                    lemma_entries_remove_at(es@, i as int);
                }
                let (_, v) = es.remove(i);
                if found.is_none() {
                    found = Some(v);
                }
            },
        }
    }
    found
}

/// A dotted key cut at its first dot.
fn split_key(key: &[char]) -> (r: Option<(Vec<char>, Vec<char>)>)
    ensures
        r matches Some((h, t)) ==> key_split(key@) == Some((h@, t@)),
        r is None ==> key_split(key@) is None,
{
    let i = find_char_from(key, '.', 0);
    assert(key@.skip(0) =~= key@);
    if i < key.len() {
        Some((slice_chars(key, 0, i), slice_chars(key, i + 1, key.len())))
    } else {
        None
    }
}


/// The view of an optional borrowed value.
pub open spec fn opt_ref_view<L>(o: Option<&TomlValue<L>>) -> Option<TomlView<L>> {
    match o {
        Some(x) => Some(toml_view(*x)),
        None => None,
    }
}

impl<L> TomlValue<L> {
    /// Whether the value is a table.
    pub fn is_table(&self) -> (r: bool)
        ensures
            r == (*self is Table),
    {
        match self {
            TomlValue::Table(_) => true,
            TomlValue::Leaf(_) => false,
        }
    }

    fn get_chars(&self, key: &[char]) -> (r: Option<&TomlValue<L>>)
        ensures
            opt_ref_view(r) == view_get(toml_view(*self), key@),
    {
        match self {
            TomlValue::Table(es) => match last_entry_of(es, key) {
                Some(i) => {
                    proof {
                        lemma_entries_last(es@, key@, i as int);
                    }
                    Some(&es[i].1)
                },
                None => {
                    proof {
                        lemma_entries_absent(es@, key@);
                    }
                    None
                },
            },
            TomlValue::Leaf(_) => None,
        }
    }

    /// The entry of a table under `key` (no dots are read in it); `None`
    /// where there is no such entry or the value is not a table.
    pub fn get(&self, key: &str) -> (r: Option<&TomlValue<L>>)
        ensures
            opt_ref_view(r) == view_get(toml_view(*self), key@),
    {
        let k = chars_of(key);
        self.get_chars(k.as_slice())
    }

    fn read_chars(&self, key: &[char]) -> (r: Option<&TomlValue<L>>)
        ensures
            opt_ref_view(r) == view_read(toml_view(*self), key@),
        decreases key@.len(),
    {
        match split_key(key) {
            Some((head, tail)) => {
                proof {
                    lemma_key_split(key@);
                }
                match self.get_chars(head.as_slice()) {
                    Some(child) => child.read_chars(tail.as_slice()),
                    None => None,
                }
            },
            None => self.get_chars(key),
        }
    }

    /// The value under a dotted key such as `output.html.fold`.
    pub fn read(&self, key: &str) -> (r: Option<&TomlValue<L>>)
        ensures
            opt_ref_view(r) == view_read(toml_view(*self), key@),
    {
        let k = chars_of(key);
        self.read_chars(k.as_slice())
    }

    fn insert_owned(v: TomlValue<L>, key: &[char], x: TomlValue<L>) -> (r: TomlValue<L>)
        ensures
            toml_view(r) == view_insert(toml_view(v), key@, toml_view(x)),
        decreases key@.len(),
    {
        let ghost m = view_entries(toml_view(v));
        let mut es = match v {
            TomlValue::Table(es) => es,
            TomlValue::Leaf(_) => Vec::new(),
        };
        assert(entries_view(es@) == m);
        match split_key(key) {
            Some((head, tail)) => {
                proof {
                    lemma_key_split(key@);
                }
                let child = match take_key(&mut es, head.as_slice()) {
                    Some(c) => c,
                    None => TomlValue::Table(Vec::new()),
                };
                let ghost before = es@;
                let child = Self::insert_owned(child, tail.as_slice(), x);
                let name = string_from_chars(head.as_slice());
                proof {
                    lemma_entries_push(before, (name, child));
                    assert(m.remove(head@).insert(head@, toml_view(child)) =~= m.insert(head@, toml_view(child)));
                }
                es.push((name, child));
                TomlValue::Table(es)
            },
            None => {
                let _ = take_key(&mut es, key);
                let name = string_from_chars(key);
                proof {
                    lemma_entries_push(es@, (name, x));
                    assert(m.remove(key@).insert(key@, toml_view(x)) =~= m.insert(key@, toml_view(x)));
                }
                es.push((name, x));
                TomlValue::Table(es)
            },
        }
    }

    /// Puts `value` under a dotted key. A value on the way that is not a
    /// table is replaced by an empty table, and missing tables are made.
    pub fn insert(&mut self, key: &str, value: TomlValue<L>)
        ensures
            toml_view(*final(self)) == view_insert(toml_view(*old(self)), key@, toml_view(value)),
    {
        let k = chars_of(key);
        let mut cur = TomlValue::Table(Vec::new());
        std::mem::swap(&mut cur, self);
        *self = Self::insert_owned(cur, k.as_slice(), value);
    }

    fn delete_owned(v: TomlValue<L>, key: &[char]) -> (r: (TomlValue<L>, Option<TomlValue<L>>))
        ensures
            (toml_view(r.0), opt_view(r.1)) == view_delete(toml_view(v), key@),
        decreases key@.len(),
    {
        match v {
            TomlValue::Leaf(l) => (TomlValue::Leaf(l), None),
            TomlValue::Table(es) => {
                let ghost m = entries_view(es@);
                let mut es = es;
                match split_key(key) {
                    Some((head, tail)) => {
                        proof {
                            lemma_key_split(key@);
                        }
                        match take_key(&mut es, head.as_slice()) {
                            Some(child) => {
                                let ghost before = es@;
                                let (child, r) = Self::delete_owned(child, tail.as_slice());
                                let name = string_from_chars(head.as_slice());
                                proof {
                                    lemma_entries_push(before, (name, child));
                                    assert(m.remove(head@).insert(head@, toml_view(child)) =~= m.insert(head@, toml_view(child)));
                                }
                                es.push((name, child));
                                (TomlValue::Table(es), r)
                            },
                            None => {
                                assert(m.remove(head@) =~= m);
                                (TomlValue::Table(es), None)
                            },
                        }
                    },
                    None => {
                        let r = take_key(&mut es, key);
                        (TomlValue::Table(es), r)
                    },
                }
            },
        }
    }

    /// Takes the value under a dotted key out, and gives it; `None`, and
    /// nothing changed, where the key names no value.
    pub fn delete(&mut self, key: &str) -> (r: Option<TomlValue<L>>)
        ensures
            (toml_view(*final(self)), opt_view(r)) == view_delete(toml_view(*old(self)), key@),
    {
        let k = chars_of(key);
        let mut cur = TomlValue::Table(Vec::new());
        std::mem::swap(&mut cur, self);
        let (v, r) = Self::delete_owned(cur, k.as_slice());
        *self = v;
        r
    }
}


/// Reading a dotted key gives back what was just inserted under it.
pub proof fn law_read_after_insert<L>(v: TomlView<L>, key: Seq<char>, x: TomlView<L>)
    ensures
        view_read(view_insert(v, key, x), key) == Some(x),
    decreases key.len(),
{
    lemma_key_split(key);
    if let Some((head, tail)) = key_split(key) {
        let m = view_entries(v);
        let child = if m.contains_key(head) { m[head] } else { TomlView::Table(Map::empty()) };
        law_read_after_insert(child, tail, x);
    }
}

/// Deleting a dotted key gives back what was just inserted under it.
pub proof fn law_delete_after_insert<L>(v: TomlView<L>, key: Seq<char>, x: TomlView<L>)
    ensures
        view_delete(view_insert(v, key, x), key).1 == Some(x),
    decreases key.len(),
{
    lemma_key_split(key);
    if let Some((head, tail)) = key_split(key) {
        let m = view_entries(v);
        let child = if m.contains_key(head) { m[head] } else { TomlView::Table(Map::empty()) };
        law_delete_after_insert(child, tail, x);
    }
}

/// What deleting a dotted key gives is what reading it gave.
pub proof fn law_delete_gives_read<L>(v: TomlView<L>, key: Seq<char>)
    ensures
        view_delete(v, key).1 == view_read(v, key),
    decreases key.len(),
{
    lemma_key_split(key);
    if let TomlView::Table(m) = v {
        if let Some((head, tail)) = key_split(key) {
            if m.contains_key(head) {
                law_delete_gives_read(m[head], tail);
            }
        }
    }
}

/// After a dotted key is deleted, reading it gives nothing.
pub proof fn law_read_after_delete<L>(v: TomlView<L>, key: Seq<char>)
    ensures
        view_read(view_delete(v, key).0, key) is None,
    decreases key.len(),
{
    lemma_key_split(key);
    if let TomlView::Table(m) = v {
        if let Some((head, tail)) = key_split(key) {
            if m.contains_key(head) {
                law_read_after_delete(m[head], tail);
            }
        }
    }
}

} // verus!
