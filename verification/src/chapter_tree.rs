//! Building the tree of a chapter's HTML from its Markdown: the parser's
//! events are fed to the tree builder one by one, and each piece of raw
//! HTML that the builder gives back is split into tokens by the tokenizer
//! that the caller hands in.

use vstd::prelude::*;
use crate::chapter_html::CodeBlockOptions;
use crate::html_serialize::{node_view, HtmlNode};
use crate::print_page::node_count;
use crate::markdown::MarkdownOptions;
use crate::md_parse::{chapter_events, events_view, markdown_events, options_ext};
use crate::tree_builder::{
    accepts, can_finish, chapter_tree, end_of_events, finish_chapter, finished, initial_view, merged_alerts,
    step, tokens_step, wf, BuilderView, HtmlToken, MdEvent, TreeBuilder,
};

verus! {

/// Why the tree of a chapter could not be built.
#[derive(Debug)]
pub enum BuildError {
    /// The builder does not take this event (see [`accepts`]): HTML outside
    /// an HTML block, or an end with nothing to close.
    Refused(MdEvent),
    /// Elements that Markdown opened are still open when the events run out.
    Unfinished,
    /// The tree has `u32::MAX` nodes or more.
    TooLarge,
}

/// The builder after an event, the HTML that it gives back, if any,
/// answered by the tokens `toks`.
pub open spec fn feed(b: BuilderView, e: MdEvent, toks: Seq<HtmlToken>) -> BuilderView {
    let (b1, h) = step(b, e);
    if h is Some {
        tokens_step(b1, toks).0
    } else {
        b1
    }
}

/// The builder after the events, in order, the HTML that the `i`th gives
/// back answered by `answers[i]`.
pub open spec fn fed(b: BuilderView, es: Seq<MdEvent>, answers: Seq<Seq<HtmlToken>>) -> BuilderView
    decreases es.len(),
{
    if es.len() == 0 {
        b
    } else {
        feed(fed(b, es.drop_last(), answers), es.last(), answers[es.len() - 1])
    }
}

/// The builder after the end of the events, the HTML that it gives back,
/// if any, answered by `last`.
pub open spec fn ended(b: BuilderView, last: Seq<HtmlToken>) -> BuilderView {
    let (b1, h) = end_of_events(b);
    if h is Some {
        tokens_step(b1, last).0
    } else {
        b1
    }
}

/// The builder before the `i`th event.
pub open spec fn before(es: Seq<MdEvent>, answers: Seq<Seq<HtmlToken>>, i: int) -> BuilderView {
    fed(initial_view(), es.take(i), answers)
}

/// Whether the builder takes each of the first `n` events.
pub open spec fn taken(es: Seq<MdEvent>, answers: Seq<Seq<HtmlToken>>, n: int) -> bool {
    forall|i: int| 0 <= i < n ==> #[trigger] accepts(before(es, answers, i), es[i])
}

/// Whether `toks` is a result that the tokenizer may give for the HTML
/// `h`.
pub open spec fn tokenized<F: Fn(String) -> Vec<HtmlToken>>(tokenize: F, h: Seq<char>, toks: Seq<HtmlToken>) -> bool {
    exists|s: String, v: Vec<HtmlToken>| s@ == h && v@ == toks && call_ensures(tokenize, (s,), v)
}

/// Whether the HTML that an event gives back to the builder `b`, if any,
/// is answered by what the tokenizer gives for it.
pub open spec fn answer_ok<F: Fn(String) -> Vec<HtmlToken>>(
    tokenize: F,
    b: BuilderView,
    e: MdEvent,
    toks: Seq<HtmlToken>,
) -> bool {
    match step(b, e).1 {
        Some(h) => tokenized(tokenize, h, toks),
        None => true,
    }
}

/// Whether the HTML that each of the first `n` events gives back is
/// answered by what the tokenizer gives for it.
pub open spec fn answered<F: Fn(String) -> Vec<HtmlToken>>(
    tokenize: F,
    es: Seq<MdEvent>,
    answers: Seq<Seq<HtmlToken>>,
    n: int,
) -> bool {
    forall|i: int| 0 <= i < n ==> #[trigger] answer_ok(tokenize, before(es, answers, i), es[i], answers[i])
}

/// Whether the HTML given back at the end of the events is answered by what
/// the tokenizer gives for it.
pub open spec fn answered_end<F: Fn(String) -> Vec<HtmlToken>>(tokenize: F, b: BuilderView, last: Seq<HtmlToken>) -> bool {
    match end_of_events(b).1 {
        Some(h) => tokenized(tokenize, h, last),
        None => true,
    }
}

/// What building the tree of the events `es` gives, with the answers of the
/// tokenizer `answers` and `last`: the first event that the builder does
/// not take is refused; else the tree must be finished and small enough to
/// count, and is the chapter's tree of the builder at the end.
pub open spec fn built<F: Fn(String) -> Vec<HtmlToken>>(
    tokenize: F,
    es: Seq<MdEvent>,
    answers: Seq<Seq<HtmlToken>>,
    last: Seq<HtmlToken>,
    code: CodeBlockOptions,
    r: Result<HtmlNode, BuildError>,
) -> bool {
    match r {
        Err(BuildError::Refused(e)) => exists|i: int|
            0 <= i < es.len() && es[i] == e && taken(es, answers, i) && answered(tokenize, es, answers, i)
                && !accepts(#[trigger] before(es, answers, i), es[i]),
        _ => {
            let b = fed(initial_view(), es, answers);
            let b_end = ended(b, last);
            &&& taken(es, answers, es.len() as int)
            &&& answered(tokenize, es, answers, es.len() as int)
            &&& answered_end(tokenize, b, last)
            &&& match r {
                Ok(t) => can_finish(b_end) && node_count(finished(b_end)) < u32::MAX
                    && node_view(t) == chapter_tree(b_end, code),
                Err(BuildError::Unfinished) => !can_finish(b_end),
                _ => can_finish(b_end) && node_count(finished(b_end)) >= u32::MAX,
            }
        },
    }
}

/// Feeding the events does not look at answers past them.
proof fn lemma_fed_prefix(b: BuilderView, es: Seq<MdEvent>, a1: Seq<Seq<HtmlToken>>, a2: Seq<Seq<HtmlToken>>)
    requires
        es.len() <= a1.len(),
        es.len() <= a2.len(),
        forall|j: int| 0 <= j < es.len() ==> a1[j] == a2[j],
    ensures
        fed(b, es, a1) == fed(b, es, a2),
    decreases es.len(),
{
    if es.len() > 0 {
        lemma_fed_prefix(b, es.drop_last(), a1, a2);
    }
}

/// Feeding one more event that the builder takes, with an answer that the
/// tokenizer may give, keeps the events taken and answered.
proof fn lemma_feed_more<F: Fn(String) -> Vec<HtmlToken>>(
    tokenize: F,
    es: Seq<MdEvent>,
    a0: Seq<Seq<HtmlToken>>,
    toks: Seq<HtmlToken>,
    k: int,
)
    requires
        0 <= k < es.len(),
        a0.len() == k,
        taken(es, a0, k),
        answered(tokenize, es, a0, k),
        accepts(before(es, a0, k), es[k]),
        answer_ok(tokenize, before(es, a0, k), es[k], toks),
    ensures
        before(es, a0.push(toks), k + 1) == feed(before(es, a0, k), es[k], toks),
        taken(es, a0.push(toks), k + 1),
        answered(tokenize, es, a0.push(toks), k + 1),
{
    let a1 = a0.push(toks);
    assert(es.take(k + 1).drop_last() =~= es.take(k));
    assert(es.take(k + 1).last() == es[k]);
    lemma_fed_prefix(initial_view(), es.take(k), a0, a1);
    assert forall|j: int| 0 <= j <= k implies #[trigger] before(es, a1, j) == before(es, a0, j) by {
        lemma_fed_prefix(initial_view(), es.take(j), a0, a1);
    }
    assert forall|j: int| 0 <= j < k + 1 implies #[trigger] accepts(before(es, a1, j), es[j]) by {
        assert(before(es, a1, j) == before(es, a0, j));
    }
    assert forall|j: int| 0 <= j < k + 1 implies #[trigger] answer_ok(tokenize, before(es, a1, j), es[j], a1[j]) by {
        assert(before(es, a1, j) == before(es, a0, j));
        if j < k {
            assert(a1[j] == a0[j]);
            assert(answer_ok(tokenize, before(es, a0, j), es[j], a0[j]));
        }
    }
}

/// Builds the tree of a chapter's HTML: the chapter's events (see
/// [`chapter_events`]) go to a [`TreeBuilder`] one by one, each piece of
/// HTML that it gives back is split into tokens by `tokenize` and fed in,
/// and the tree is finished for the code block options; see [`built`].
pub fn build_chapter_tree<F: Fn(String) -> Vec<HtmlToken>>(
    text: &str,
    options: &MarkdownOptions,
    code: &CodeBlockOptions,
    tokenize: F,
) -> (r: Result<HtmlNode, BuildError>)
    requires
        forall|s: String| call_requires(tokenize, (s,)),
    ensures
        exists|es: Seq<MdEvent>, answers: Seq<Seq<HtmlToken>>, last: Seq<HtmlToken>|
            events_view(es) == markdown_events(text@, options_ext(*options))
                && built(tokenize, merged_alerts(es), answers, last, *code, r),
{
    let events = chapter_events(text, options);
    let ghost es0 = choose|es: Seq<MdEvent>|
        events_view(es) == markdown_events(text@, options_ext(*options)) && events@ == merged_alerts(es);
    let ghost all = events@;
    let ghost n = all.len();
    let mut rest = events;
    assert(n == rest.len());
    let mut builder = TreeBuilder::new();
    let ghost mut answers: Seq<Seq<HtmlToken>> = seq![];
    let mut i: usize = 0;
    while rest.len() > 0
        invariant
            i + rest@.len() == n,
            all.len() == n,
            n <= usize::MAX,
            rest@ == all.skip(i as int),
            answers.len() == i,
            wf(builder@),
            builder@ == before(all, answers, i as int),
            taken(all, answers, i as int),
            answered(tokenize, all, answers, i as int),
            forall|s: String| call_requires(tokenize, (s,)),
            all == merged_alerts(es0),
            events_view(es0) == markdown_events(text@, options_ext(*options)),
        decreases rest@.len(),
    {
        let ghost k = i as int;
        let e = rest.remove(0);
        proof {
            assert(e == all[k]);
            assert(rest@ =~= all.skip(k + 1));
        }
        if !builder.accepts(&e) {
            let r = Err(BuildError::Refused(e));
            proof {
                assert(!accepts(before(all, answers, k), all[k]));
                assert(built(tokenize, merged_alerts(es0), answers, seq![], *code, r));
            }
            return r;
        }
        let ghost b0 = builder@;
        let requested = builder.event(e);
        let ghost mut toks: Seq<HtmlToken> = seq![];
        match requested {
            Some(h) => {
                let ghost hs = h;
                let v = tokenize(h);
                proof {
                    toks = v@;
                    assert(tokenized(tokenize, hs@, toks));
                }
                builder.html(v);
            },
            None => {},
        }
        let ghost a0 = answers;
        proof {
            assert(answer_ok(tokenize, b0, all[k], toks));
            assert(builder@ == feed(b0, all[k], toks));
            lemma_feed_more(tokenize, all, a0, toks, k);
            answers = a0.push(toks);
        }
        i = i + 1;
    }
    proof {
        assert(all.take(n as int) =~= all);
    }
    let ghost b_all = builder@;
    let ghost mut last: Seq<HtmlToken> = seq![];
    match builder.end_of_events() {
        Some(h) => {
            let ghost hs = h;
            let v = tokenize(h);
            proof {
                last = v@;
                assert(tokenized(tokenize, hs@, last));
            }
            builder.html(v);
        },
        None => {},
    }
    proof {
        assert(builder@ == ended(b_all, last));
        assert(answered_end(tokenize, b_all, last));
    }
    let r = if !builder.can_finish() {
        Err(BuildError::Unfinished)
    } else {
        match finish_chapter(builder, code) {
            Some(t) => Ok(t),
            None => Err(BuildError::TooLarge),
        }
    };
    proof {
        assert(built(tokenize, merged_alerts(es0), answers, last, *code, r));
    }
    r
}

} // verus!
