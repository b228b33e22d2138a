//! A tree structure representing a book.
//!
//! A book is a sequence of [`BookItem`]s; a chapter may hold nested items.
//! [`Book::iter`] walks the tree depth-first (pre-order), and
//! [`Book::for_each_mut`] hands every item to a closure, each chapter's
//! nested items before the chapter itself.

use vstd::prelude::*;
use vstd::std_specs::convert::IntoSpec;
use crate::text::{chars_of, decimal, push_decimal, string_from_chars};

verus! {

/// A section number like "1.2.3".
#[derive(Debug, Clone, PartialEq)]
pub struct SectionNumber(pub Vec<u32>);

/// The representation of a "chapter", usually mapping to a single file on
/// disk however it may contain multiple sub-chapters.
#[derive(Debug, PartialEq)]
pub struct Chapter {
    /// The chapter's name.
    pub name: String,
    /// The chapter's contents.
    pub content: String,
    /// The chapter's section number, if it has one.
    pub number: Option<SectionNumber>,
    /// Nested items.
    pub sub_items: Vec<BookItem>,
    /// The chapter's location, relative to the `SUMMARY.md` file; `None`
    /// for a draft chapter.
    pub path: Option<String>,
    /// The chapter's source file, relative to the `SUMMARY.md` file; `None`
    /// for a draft chapter or a chapter without a file on disk.
    pub source_path: Option<String>,
    /// The names of each chapter above this one in the hierarchy, outermost first.
    pub parent_names: Vec<String>,
}

/// Any item which can be added to a book.
#[derive(Debug, PartialEq)]
pub enum BookItem {
    /// A nested chapter.
    Chapter(Chapter),
    /// A section separator.
    Separator,
    /// A part title.
    PartTitle(String),
}

/// A tree structure representing a book.
#[derive(Debug, PartialEq)]
pub struct Book {
    /// The sections in this book.
    pub sections: Vec<BookItem>,
}

/// The items of `items` and of everything nested in them, in depth-first
/// pre-order: each item comes before the items nested in it.
pub open spec fn preorder(items: Seq<BookItem>) -> Seq<BookItem>
    decreases items,
{
    if items.len() == 0 {
        seq![]
    } else {
        let first = items[0];
        let nested = match first {
            BookItem::Chapter(ch) => preorder(ch.sub_items@),
            _ => seq![],
        };
        seq![first] + nested + preorder(items.subrange(1, items.len() as int))
    }
}

/// The items of a single item's subtree, in pre-order.
pub open spec fn subtree(item: BookItem) -> Seq<BookItem> {
    preorder(seq![item])
}

/// The sequence `s` in reverse order.
pub open spec fn reversed<T>(s: Seq<T>) -> Seq<T> {
    Seq::new(s.len(), |i: int| s[s.len() - 1 - i])
}

/// Pre-order of a concatenation is the concatenation of the pre-orders.
pub proof fn lemma_preorder_append(a: Seq<BookItem>, b: Seq<BookItem>)
    ensures
        preorder(a + b) == preorder(a) + preorder(b),
    decreases a.len(),
{
    if a.len() == 0 {
        assert(a + b == b);
    } else {
        let rest = a.subrange(1, a.len() as int);
        lemma_preorder_append(rest, b);
        assert((a + b).subrange(1, (a + b).len() as int) == rest + b);
        assert((a + b)[0] == a[0]);
    }
}

/// The items that a stack of references stands for, top of the stack first.
pub open spec fn stack_items(s: Seq<&BookItem>) -> Seq<BookItem> {
    Seq::new(s.len(), |i: int| *s[s.len() - 1 - i])
}

/// A depth-first iterator over the items in a book.
///
/// Obtain one from [`Book::iter`].
pub struct BookItems<'a> {
    items: Vec<&'a BookItem>,
}

impl<'a> BookItems<'a> {
    /// The items that are still to come, in the order they will come.
    pub closed spec fn remaining(&self) -> Seq<BookItem> {
        preorder(stack_items(self.items@))
    }

    /// Gives the next item in depth-first pre-order, or `None` when every
    /// item has been given.
    pub fn next(&mut self) -> (r: Option<&'a BookItem>)
        ensures
            r is None <==> old(self).remaining().len() == 0,
            r matches Some(x) ==> old(self).remaining() == seq![*x] + final(self).remaining(),
            r is None ==> final(self).remaining() == old(self).remaining(),
    {
        let ghost old_stack = self.items@;
        match self.items.pop() {
            None => {
                assert(stack_items(old_stack) =~= Seq::<BookItem>::empty());
                None
            },
            Some(x) => {
                let ghost rest = self.items@;
                proof {
                    assert(stack_items(old_stack) =~= seq![*x] + stack_items(rest));
                    lemma_preorder_append(seq![*x], stack_items(rest));
                    assert(seq![*x].subrange(1, 1) =~= Seq::<BookItem>::empty());
                    assert(preorder(Seq::<BookItem>::empty()) == Seq::<BookItem>::empty());
                }
                if let BookItem::Chapter(ch) = x {
                    let n = ch.sub_items.len();
                    let mut k = n;
                    while k > 0
                        invariant
                            k <= n,
                            n == ch.sub_items@.len(),
                            self.items@.len() == rest.len() + (n - k),
                            stack_items(self.items@) =~= ch.sub_items@.subrange(k as int, n as int)
                                + stack_items(rest),
                        decreases k,
                    {
                        k = k - 1;
                        let ghost before = self.items@;
                        self.items.push(&ch.sub_items[k]);
                        assert(stack_items(self.items@) =~= seq![ch.sub_items@[k as int]]
                            + stack_items(before));
                    }
                    proof {
                        assert(ch.sub_items@.subrange(0, n as int) =~= ch.sub_items@);
                        lemma_preorder_append(ch.sub_items@, stack_items(rest));
                        assert(preorder(seq![*x]) =~= seq![*x] + preorder(ch.sub_items@));
                    }
                } else {
                    assert(self.items@ == rest);
                    assert(preorder(seq![*x]) =~= seq![*x]);
                }
                Some(x)
            },
        }
    }
}

/// Whether `after` is what [`Book::for_each_mut`] makes of the item
/// `before`, where `call(x, y)` says that one call of the closure can turn
/// `x` into `y`: for a chapter, the closure is called on the chapter once
/// its nested items are done; for any other item, on the item itself.
pub open spec fn item_done(call: spec_fn(BookItem, BookItem) -> bool, before: BookItem, after: BookItem) -> bool
    decreases before, 0nat,
{
    match before {
        BookItem::Chapter(ch) => exists|subs: Vec<BookItem>|
            #![trigger call(BookItem::Chapter(Chapter { sub_items: subs, ..ch }), after)]
            items_done(call, ch.sub_items@, subs@) && call(BookItem::Chapter(Chapter { sub_items: subs, ..ch }), after),
        _ => call(before, after),
    }
}

/// Whether `after` is what [`Book::for_each_mut`] makes of the items
/// `before`, one by one and in order.
pub open spec fn items_done(call: spec_fn(BookItem, BookItem) -> bool, before: Seq<BookItem>, after: Seq<BookItem>) -> bool
    decreases before, 1nat,
{
    &&& before.len() == after.len()
    &&& before.len() > 0 ==> {
        &&& item_done(call, before[0], after[0])
        &&& items_done(call, before.subrange(1, before.len() as int), after.subrange(1, after.len() as int))
    }
}

/// Doing one more item after some items.
proof fn lemma_items_done_push(
    call: spec_fn(BookItem, BookItem) -> bool,
    before: Seq<BookItem>,
    after: Seq<BookItem>,
    x: BookItem,
    y: BookItem,
)
    requires
        items_done(call, before, after),
        item_done(call, x, y),
    ensures
        items_done(call, before.push(x), after.push(y)),
    decreases before.len(),
{
    if before.len() > 0 {
        lemma_items_done_push(
            call,
            before.subrange(1, before.len() as int),
            after.subrange(1, after.len() as int),
            x,
            y,
        );
        assert(before.push(x).subrange(1, before.len() as int + 1) =~= before.subrange(1, before.len() as int).push(x));
        assert(before.push(x)[0] == before[0]);
        assert(after.push(y)[0] == after[0]);
        assert(after.push(y).subrange(1, after.len() as int + 1) =~= after.subrange(1, after.len() as int).push(y));
    } else {
        assert(before.push(x).subrange(1, 1) =~= Seq::<BookItem>::empty());
        assert(after.push(y).subrange(1, 1) =~= Seq::<BookItem>::empty());
        assert(before.push(x)[0] == x);
        assert(after.push(y)[0] == y);
        assert(items_done(call, Seq::<BookItem>::empty(), Seq::<BookItem>::empty()));
    }
}

/// Calls the closure on one item; the closure itself stays as it was.
fn call_on<F: FnMut(&mut BookItem)>(func: &mut F, item: &mut BookItem)
    requires
        forall|x: &mut BookItem| call_requires(*old(func), (x,)),
    ensures
        *final(func) == *old(func),
        exists|x: &mut BookItem| call_ensures(*old(func), (x,), ()) && *x == *old(item) && *final(x) == *final(item),
{
    func(item);
}

/// Applies the closure to each item, nested items before their chapter;
/// see [`items_done`].
fn for_each_mut_items<F: FnMut(&mut BookItem)>(func: &mut F, items: &mut Vec<BookItem>)
    requires
        forall|x: &mut BookItem| call_requires(*old(func), (x,)),
    ensures
        *final(func) == *old(func),
        items_done(
            |b: BookItem, a: BookItem|
                exists|x: &mut BookItem| call_ensures(*old(func), (x,), ()) && *x == b && *final(x) == a,
            old(items)@,
            final(items)@,
        ),
    decreases *old(items),
{
    let ghost f0 = *func;
    let ghost c = |b: BookItem, a: BookItem| exists|x: &mut BookItem| call_ensures(f0, (x,), ()) && *x == b && *final(x) == a;
    let n = items.len();
    let mut i: usize = 0;
    assert(items_done(c, old(items)@.take(0), items@.take(0)));
    while i < n
        invariant
            i <= n,
            items@.len() == n,
            n == old(items)@.len(),
            *func == f0,
            c == (|b: BookItem, a: BookItem| exists|x: &mut BookItem| call_ensures(f0, (x,), ()) && *x == b && *final(x) == a),
            forall|j: int| i <= j < n ==> items@[j] == old(items)@[j],
            items_done(c, old(items)@.take(i as int), items@.take(i as int)),
            forall|x: &mut BookItem| call_requires(f0, (x,)),
        decreases n - i,
    {
        let ghost prev = items@;
        let item = &mut items[i];
        let ghost before = *item;
        if let BookItem::Chapter(ch) = item {
            assert(decreases_to!(*old(items) => old(items)@));
            assert(decreases_to!(old(items)@ => old(items)@[i as int]));
            for_each_mut_items(func, &mut ch.sub_items);
        }
        let ghost mid = *item;
        call_on(func, item);
        proof {
            let after = items@[i as int];
            assert(exists|x: &mut BookItem| call_ensures(f0, (x,), ()) && *x == mid && *final(x) == after);
            assert(c(mid, after));
            assert(item_done(c, before, after));
            lemma_items_done_push(c, old(items)@.take(i as int), prev.take(i as int), before, after);
            assert(old(items)@.take(i + 1) =~= old(items)@.take(i as int).push(before));
            assert(items@.take(i + 1) =~= prev.take(i as int).push(after));
        }
        i = i + 1;
    }
    assert(old(items)@.take(n as int) =~= old(items)@);
    assert(items@.take(n as int) =~= items@);
}

impl Book {
    /// Create an empty book.
    pub fn new() -> (r: Book)
        ensures
            r.sections@ == Seq::<BookItem>::empty(),
    {
        Book { sections: Vec::new() }
    }

    /// Creates a new book with the given items.
    pub fn new_with_items(items: Vec<BookItem>) -> (r: Book)
        ensures
            r.sections == items,
    {
        Book { sections: items }
    }

    /// Get a depth-first (pre-order) iterator over the items in the book.
    pub fn iter(&self) -> (r: BookItems<'_>)
        ensures
            r.remaining() == preorder(self.sections@),
    {
        let n = self.sections.len();
        let mut items: Vec<&BookItem> = Vec::new();
        let mut k = n;
        while k > 0
            invariant
                k <= n,
                n == self.sections@.len(),
                items@.len() == n - k,
                stack_items(items@) =~= self.sections@.subrange(k as int, n as int),
            decreases k,
        {
            k = k - 1;
            let ghost before = items@;
            items.push(&self.sections[k]);
            assert(stack_items(items@) =~= seq![self.sections@[k as int]] + stack_items(before));
        }
        assert(self.sections@.subrange(0, n as int) =~= self.sections@);
        BookItems { items }
    }

    /// Recursively apply a closure to each item in the book, allowing you to
    /// mutate them. A chapter's nested items are visited before the chapter:
    /// each item becomes what one call of the closure makes of it once its
    /// nested items are done (see [`items_done`]).
    pub fn for_each_mut<F: FnMut(&mut BookItem)>(&mut self, func: F)
        requires
            forall|x: &mut BookItem| call_requires(func, (x,)),
        ensures
            final(self).sections@.len() == old(self).sections@.len(),
            items_done(
                |b: BookItem, a: BookItem|
                    exists|x: &mut BookItem| call_ensures(func, (x,), ()) && *x == b && *final(x) == a,
                old(self).sections@,
                final(self).sections@,
            ),
    {
        let mut func = func;
        for_each_mut_items(&mut func, &mut self.sections);
    }

    /// Append a `BookItem` to the `Book`.
    pub fn push_item<I: Into<BookItem>>(&mut self, item: I) -> (r: &mut Self)
        ensures
            r.sections@.len() == old(self).sections@.len() + 1,
            r.sections@.subrange(0, old(self).sections@.len() as int) == old(self).sections@,
            I::obeys_into_spec() ==> r.sections@ == old(self).sections@.push(item.into_spec()),
            *final(self) == *final(r),
    {
        let it: BookItem = item.into();
        self.sections.push(it);
        assert(self.sections@.subrange(0, self.sections@.len() - 1) =~= old(self).sections@);
        self
    }
}

/// The text of a section number: each part followed by a dot, or `"0"`
/// when there are no parts.
pub open spec fn section_number_text(parts: Seq<u32>) -> Seq<char>
    decreases parts.len(),
{
    if parts.len() == 0 {
        seq!['0']
    } else {
        dotted(parts)
    }
}

/// Each part in decimal, followed by a dot.
pub open spec fn dotted(parts: Seq<u32>) -> Seq<char>
    decreases parts.len(),
{
    if parts.len() == 0 {
        seq![]
    } else {
        dotted(parts.drop_last()) + decimal(parts.last() as nat) + seq!['.']
    }
}

fn push_dotted(out: &mut Vec<char>, parts: &Vec<u32>)
    ensures
        final(out)@ == old(out)@ + dotted(parts@),
{
    let mut i: usize = 0;
    while i < parts.len()
        invariant
            i <= parts@.len(),
            out@ == old(out)@ + dotted(parts@.take(i as int)),
        decreases parts@.len() - i,
    {
        push_decimal(out, parts[i]);
        out.push('.');
        assert(parts@.take(i + 1).drop_last() == parts@.take(i as int));
        i = i + 1;
    }
    assert(parts@.take(parts@.len() as int) == parts@);
}

impl SectionNumber {
    /// The dotted representation, such as `"1.2.3."`; `"0"` when empty.
    pub fn to_string(&self) -> (r: String)
        ensures
            r@ == section_number_text(self.0@),
    {
        let mut out: Vec<char> = Vec::new();
        if self.0.len() == 0 {
            out.push('0');
        } else {
            push_dotted(&mut out, &self.0);
        }
        string_from_chars(&out)
    }
}

impl Default for SectionNumber {
    fn default() -> (r: SectionNumber)
        ensures
            r.0@ == Seq::<u32>::empty(),
    {
        SectionNumber(Vec::new())
    }
}

/// The text shown for a chapter: its section number and a space, if it has
/// a number, then its name.
pub open spec fn chapter_text(ch: Chapter) -> Seq<char> {
    match ch.number {
        Some(n) => section_number_text(n.0@) + seq![' '] + ch.name@,
        None => ch.name@,
    }
}

impl Chapter {
    /// Create a new chapter with the provided content, located at `p`.
    pub fn new(name: &str, content: String, p: &str, parent_names: Vec<String>) -> (r: Chapter)
        ensures
            r.name@ == name@,
            r.content == content,
            r.number is None,
            r.sub_items@.len() == 0,
            r.path matches Some(x) && x@ == p@,
            r.source_path matches Some(x) && x@ == p@,
            r.parent_names == parent_names,
    {
        Chapter {
            name: name.to_owned(),
            content,
            number: None,
            sub_items: Vec::new(),
            path: Some(p.to_owned()),
            source_path: Some(p.to_owned()),
            parent_names,
        }
    }

    /// Create a new draft chapter that is not attached to a source markdown
    /// file (and thus has no content).
    pub fn new_draft(name: &str, parent_names: Vec<String>) -> (r: Chapter)
        ensures
            r.name@ == name@,
            r.content@.len() == 0,
            r.number is None,
            r.sub_items@.len() == 0,
            r.path is None,
            r.source_path is None,
            r.parent_names == parent_names,
    {
        Chapter {
            name: name.to_owned(),
            content: String::new(),
            number: None,
            sub_items: Vec::new(),
            path: None,
            source_path: None,
            parent_names,
        }
    }

    /// Check if the chapter is a draft chapter, meaning it has no path to a
    /// source markdown file.
    pub fn is_draft_chapter(&self) -> (r: bool)
        ensures
            r == self.path is None,
    {
        self.path.is_none()
    }

    /// The text shown for the chapter, such as `"1.2. Intro"`.
    pub fn to_string(&self) -> (r: String)
        ensures
            r@ == chapter_text(*self),
    {
        let mut out: Vec<char> = Vec::new();
        if let Some(n) = &self.number {
            if n.0.len() == 0 {
                out.push('0');
            } else {
                push_dotted(&mut out, &n.0);
            }
            out.push(' ');
        }
        let name = chars_of(self.name.as_str());
        let mut i: usize = 0;
        let ghost prefix = out@;
        while i < name.len()
            invariant
                i <= name@.len(),
                out@ == prefix + name@.take(i as int),
            decreases name@.len() - i,
        {
            out.push(name[i]);
            i = i + 1;
            assert(name@.take(i as int) == name@.take(i - 1).push(name@[i - 1]));
        }
        assert(name@.take(name@.len() as int) == name@);
        string_from_chars(&out)
    }
}

impl Default for Chapter {
    fn default() -> (r: Chapter)
        ensures
            r.name@.len() == 0,
            r.content@.len() == 0,
            r.number is None,
            r.sub_items@.len() == 0,
            r.path is None,
            r.source_path is None,
            r.parent_names@.len() == 0,
    {
        Chapter {
            name: String::new(),
            content: String::new(),
            number: None,
            sub_items: Vec::new(),
            path: None,
            source_path: None,
            parent_names: Vec::new(),
        }
    }
}

impl Default for Book {
    fn default() -> (r: Book)
        ensures
            r.sections@.len() == 0,
    {
        Book { sections: Vec::new() }
    }
}

impl From<Chapter> for BookItem {
    fn from(other: Chapter) -> (r: BookItem)
        ensures
            r == BookItem::Chapter(other),
    {
        BookItem::Chapter(other)
    }
}

impl vstd::std_specs::convert::FromSpecImpl<Chapter> for BookItem {
    open spec fn obeys_from_spec() -> bool {
        true
    }

    open spec fn from_spec(v: Chapter) -> BookItem {
        BookItem::Chapter(v)
    }
}

/// A chapter's text without the byte order mark that a file may start
/// with.
pub open spec fn without_bom(content: Seq<char>) -> Seq<char> {
    if content.len() > 0 && content[0] == '\u{feff}' {
        content.skip(1)
    } else {
        content
    }
}

/// Drops the byte order mark at the start of a chapter's text, if any; see
/// [`without_bom`].
pub fn strip_bom(content: &str) -> (r: String)
    ensures
        r@ == without_bom(content@),
{
    let v = crate::text::chars_of(content);
    if v.len() > 0 && v[0] == '\u{feff}' {
        let rest = crate::text::slice_chars(&v, 1, v.len());
        assert(rest@ =~= v@.skip(1));
        crate::text::string_from_chars(&rest)
    } else {
        content.to_owned()
    }
}

} // verus!
