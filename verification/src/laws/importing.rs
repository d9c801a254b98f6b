//! What a document parses to, and what an import makes of the user's tokens.
use vstd::prelude::*;

use crate::catalogue::{key, last_of_key, lemma_last_of_key, merged, merged_one};
use crate::laws::edits::{law_last_entry_wins, lemma_merge_leaves_the_rest};
use crate::model::ListView;
use crate::text::normalized;
use crate::token::{
    doc_view, list_view, parsed, DocView, Token, TokenErrorView, TokenListDoc, TokenView,
};

verus! {

/// A document parses to its own tokens, entry by entry and field by field, under its own name. A
/// text that is no document is a parse error in the reader's words.
pub proof fn law_a_document_parses_to_its_entries(doc: Result<DocView, Seq<char>>)
    ensures
        match doc {
            Ok(d) => {
                &&& parsed(doc) is Ok
                &&& (parsed(doc)->Ok_0).0 == d.name
                &&& (parsed(doc)->Ok_0).1.len() == d.tokens.len()
                &&& forall|i: int|
                    0 <= i < d.tokens.len() ==> {
                        let t = #[trigger] (parsed(doc)->Ok_0).1[i];
                        &&& t.chain_id == d.tokens[i].chain_id
                        &&& t.address == d.tokens[i].address
                        &&& t.name == d.tokens[i].name
                        &&& t.symbol == d.tokens[i].symbol
                        &&& t.decimals == d.tokens[i].decimals
                        &&& t.logo_uri == d.tokens[i].logo_uri
                    }
            },
            Err(words) => parsed(doc) == Err::<(Seq<char>, Seq<TokenView>), TokenErrorView>(
                TokenErrorView::Parse(words),
            ),
        },
{
}

/// So the tokens that are handed out have the very fields of the entries that were handed in.
pub proof fn law_parsing_keeps_every_field(
    doc: TokenListDoc,
    list: (String, Vec<Token>),
    i: int,
)
    requires
        list_view(Ok(list)) == parsed(doc_view(Ok(doc))),
        0 <= i < doc.tokens@.len(),
    ensures
        list.0@ == doc.name@,
        list.1@.len() == doc.tokens@.len(),
        list.1@[i].chain_id == doc.tokens@[i].chain_id,
        list.1@[i].address@ == doc.tokens@[i].address@,
        list.1@[i].name@ == doc.tokens@[i].name@,
        list.1@[i].symbol@ == doc.tokens@[i].symbol@,
        list.1@[i].decimals == doc.tokens@[i].decimals,
        (list.1@[i].logo_uri is Some) == (doc.tokens@[i].logo_uri is Some),
        list.1@[i].logo_uri is Some ==> list.1@[i].logo_uri->0@ == doc.tokens@[i].logo_uri->0@,
{
    let out = (parsed(doc_view(Ok(doc)))->Ok_0).1;
    assert(out.len() == list.1@.len());
    assert(out[i] == list.1@[i]@);
    assert(doc@.tokens[i] == doc.tokens@[i]@);
}

/// Two entries are for the same token: the chain is the same and so is the address.
pub open spec fn alike(a: TokenView, b: TokenView) -> bool {
    a.chain_id == b.chain_id && normalized(a.address) == normalized(b.address)
}

/// No entry behind the `i`-th is for the same token.
pub open spec fn is_last(tokens: Seq<TokenView>, i: int) -> bool {
    forall|j: int| i < j < tokens.len() ==> !alike(#[trigger] tokens[j], tokens[i])
}

/// The tokens that an import starts from: the user's own, or none where it replaces them.
pub open spec fn start(v: ListView, replace: bool) -> Seq<TokenView> {
    if replace {
        Seq::empty()
    } else {
        v.custom
    }
}

proof fn lemma_last_is(tokens: Seq<TokenView>, i: int)
    requires
        0 <= i < tokens.len(),
    ensures
        is_last(tokens, i) <==> last_of_key(tokens, key(tokens[i])) == i,
{
    let k = key(tokens[i]);
    let at = last_of_key(tokens, k);
    lemma_last_of_key(tokens, k);
    if is_last(tokens, i) && at > i {
        assert(alike(tokens[at], tokens[i]));
    }
    if at < i {
        assert(key(tokens[i]) != k);
    }
    if at == i {
        assert forall|j: int| i < j < tokens.len() implies !alike(#[trigger] tokens[j], tokens[i])
            by {
            assert(key(tokens[j]) != k);
        }
    }
}

/// How a merge lays out its result: what was there keeps its place and its key, and what is new
/// comes behind it, each key once and in the order in which the keys first come.
proof fn lemma_layout(tokens: Seq<TokenView>, more: Seq<TokenView>)
    ensures
        ({
            let r = merged(tokens, more);
            let n = tokens.len();
            &&& r.len() >= n
            &&& forall|p: int| 0 <= p < n ==> key(#[trigger] r[p]) == key(tokens[p])
            &&& forall|p: int, q: int|
                0 <= p < q < r.len() && q >= n ==> key(#[trigger] r[p]) != key(#[trigger] r[q])
            &&& forall|p: int| n <= p < r.len() ==> last_of_key(more, key(#[trigger] r[p])) >= 0
            &&& forall|p: int, q: int|
                n <= p < q < r.len() ==> comes_before(
                    more,
                    key(#[trigger] r[p]),
                    key(#[trigger] r[q]),
                )
        }),
    decreases more.len(),
{
    if more.len() > 0 {
        let n = tokens.len();
        let prev = more.drop_last();
        let t = more[more.len() - 1];
        let now = merged(tokens, prev);
        let r = merged(tokens, more);
        lemma_layout(tokens, prev);
        lemma_last_of_key(now, key(t));
        let at = last_of_key(now, key(t));
        assert(r == merged_one(now, t));
        assert forall|p: int| 0 <= p < now.len() implies key(#[trigger] r[p]) == key(now[p]) by {}
        assert forall|p: int| 0 <= p < n implies key(#[trigger] r[p]) == key(tokens[p]) by {
            assert(key(now[p]) == key(tokens[p]));
        }
        assert forall|p: int, q: int| 0 <= p < q < r.len() && q >= n implies key(#[trigger] r[p])
            != key(#[trigger] r[q]) by {
            if q < now.len() {
                assert(key(now[p]) != key(now[q]));
            } else {
                assert(key(now[p]) != key(t));
            }
        }
        assert forall|p: int| n <= p < r.len() implies last_of_key(more, key(#[trigger] r[p]))
            >= 0 by {
            if p < now.len() {
                assert(last_of_key(prev, key(now[p])) >= 0);
            }
        }
        assert forall|p: int, q: int| n <= p < q < r.len() implies comes_before(
            more,
            key(#[trigger] r[p]),
            key(#[trigger] r[q]),
        ) by {
            let k = key(r[p]);
            if q < now.len() {
                assert(comes_before(prev, key(now[p]), key(now[q])));
                let i = choose|i: int|
                    0 <= i < prev.len() && key(#[trigger] prev[i]) == k && forall|j: int|
                        0 <= j <= i ==> key(#[trigger] prev[j]) != key(r[q]);
                assert(more[i] == prev[i]);
                assert forall|j: int| 0 <= j <= i implies key(#[trigger] more[j]) != key(r[q]) by {
                    assert(more[j] == prev[j]);
                }
            } else {
                assert(last_of_key(prev, key(now[p])) >= 0);
                lemma_last_of_key(prev, k);
                let i = last_of_key(prev, k);
                assert(more[i] == prev[i]);
                assert forall|j: int| 0 <= j <= i implies key(#[trigger] more[j]) != key(r[q]) by {
                    assert(more[j] == prev[j]);
                    if key(prev[j]) == key(t) {
                        lemma_every_key_is_there(tokens, prev, j);
                    }
                }
            }
        }
    }
}

/// An entry of key `a` comes before every entry of key `b`.
pub open spec fn comes_before(
    tokens: Seq<TokenView>,
    a: (u64, Seq<char>),
    b: (u64, Seq<char>),
) -> bool {
    exists|i: int|
        0 <= i < tokens.len() && key(#[trigger] tokens[i]) == a && forall|j: int|
            0 <= j <= i ==> key(#[trigger] tokens[j]) != b
}

proof fn lemma_every_key_is_there(tokens: Seq<TokenView>, more: Seq<TokenView>, i: int)
    requires
        0 <= i < more.len(),
    ensures
        last_of_key(merged(tokens, more), key(more[i])) >= 0,
{
    let k = key(more[i]);
    lemma_last_of_key(more, k);
    law_last_entry_wins(tokens, more, k);
}

/// An import keeps every place that there was, for the token it was for, and adds places behind
/// them: each for a token that was not there, and no token twice.
pub proof fn law_import_keeps_the_places(v: ListView, d: DocView, replace: bool)
    ensures
        ({
            let before = start(v, replace);
            let after = v.imported(Ok(d), replace).custom;
            &&& after.len() >= before.len()
            &&& forall|p: int| 0 <= p < before.len() ==> alike(#[trigger] after[p], before[p])
            &&& forall|p: int, q: int|
                0 <= p < q < after.len() && q >= before.len() ==> !alike(
                    #[trigger] after[p],
                    #[trigger] after[q],
                )
        }),
{
    let before = start(v, replace);
    let after = v.imported(Ok(d), replace).custom;
    lemma_layout(before, d.tokens);
    assert(after == merged(before, d.tokens));
    assert forall|p: int| 0 <= p < before.len() implies alike(#[trigger] after[p], before[p]) by {
        assert(key(after[p]) == key(before[p]));
    }
    assert forall|p: int, q: int| 0 <= p < q < after.len() && q >= before.len() implies !alike(
        #[trigger] after[p],
        #[trigger] after[q],
    ) by {
        assert(key(after[p]) != key(after[q]));
    }
}

/// Of each token that a document describes, the last entry is stored to the letter: over the last of
/// the user's entries for it where there is one, and in a place of its own otherwise.
pub proof fn law_import_stores_the_last_entry(v: ListView, d: DocView, replace: bool, i: int)
    requires
        0 <= i < d.tokens.len(),
        is_last(d.tokens, i),
    ensures
        ({
            let before = start(v, replace);
            let after = v.imported(Ok(d), replace).custom;
            &&& exists|p: int| 0 <= p < after.len() && #[trigger] after[p] == d.tokens[i]
            &&& forall|p: int|
                0 <= p < before.len() && alike(#[trigger] before[p], d.tokens[i]) && is_last(
                    before,
                    p,
                ) ==> after[p] == d.tokens[i]
        }),
{
    let before = start(v, replace);
    let after = v.imported(Ok(d), replace).custom;
    let k = key(d.tokens[i]);
    assert(after == merged(before, d.tokens));
    lemma_layout(before, d.tokens);
    lemma_last_is(d.tokens, i);
    law_last_entry_wins(before, d.tokens, k);
    lemma_last_of_key(after, k);
    let at = last_of_key(after, k);
    assert(after[at] == d.tokens[i]);
    assert forall|p: int|
        0 <= p < before.len() && alike(#[trigger] before[p], d.tokens[i]) && is_last(
            before,
            p,
        ) implies after[p] == d.tokens[i] by {
        assert(key(after[p]) == key(before[p]));
        if at >= before.len() {
            assert(key(after[p]) != key(after[at]));
        } else if at > p {
            assert(key(after[at]) == key(before[at]));
            assert(alike(before[at], before[p]));
        }
    }
}

/// An entry that the document says nothing of stays as it is, and so does one that is not the last
/// for its token.
pub proof fn law_import_leaves_the_rest(v: ListView, d: DocView, replace: bool, p: int)
    requires
        0 <= p < start(v, replace).len(),
        !is_last(start(v, replace), p) || forall|i: int|
            0 <= i < d.tokens.len() ==> !alike(#[trigger] d.tokens[i], start(v, replace)[p]),
    ensures
        v.imported(Ok(d), replace).custom[p] == start(v, replace)[p],
{
    let before = start(v, replace);
    let k = key(before[p]);
    lemma_last_is(before, p);
    lemma_last_of_key(d.tokens, k);
    if is_last(before, p) {
        let i = last_of_key(d.tokens, k);
        if i >= 0 {
            assert(alike(d.tokens[i], before[p]));
        }
        law_last_entry_wins(before, d.tokens, k);
    } else {
        lemma_merge_leaves_the_rest(before, d.tokens, p);
    }
}

/// An import answers with how many tokens the user has of their own now, or, where the text is no
/// document, with a parse error in the reader's words and everything as it was.
pub proof fn law_import_answers(v: ListView, doc: Result<DocView, Seq<char>>, replace: bool)
    ensures
        match doc {
            Ok(_) => v.import_reply(doc, replace) == Ok::<nat, TokenErrorView>(
                v.imported(doc, replace).custom.len(),
            ),
            Err(words) => v.import_reply(doc, replace) == Err::<nat, TokenErrorView>(
                TokenErrorView::Parse(words),
            ) && v.imported(doc, replace) == v,
        },
{
}

/// What an import adds are last entries of the document, in the order in which it first speaks of
/// their tokens.
pub proof fn law_import_adds_in_order(v: ListView, d: DocView, replace: bool, p: int)
    requires
        start(v, replace).len() <= p < v.imported(Ok(d), replace).custom.len(),
    ensures
        ({
            let after = v.imported(Ok(d), replace).custom;
            &&& exists|i: int|
                0 <= i < d.tokens.len() && #[trigger] d.tokens[i] == after[p] && is_last(d.tokens, i)
            &&& forall|q: int|
                p < q < after.len() ==> exists|i: int|
                    0 <= i < d.tokens.len() && alike(#[trigger] d.tokens[i], after[p]) && forall|
                        j: int,
                    |
                        0 <= j <= i ==> !alike(#[trigger] d.tokens[j], #[trigger] after[q])
        }),
{
    let before = start(v, replace);
    let after = v.imported(Ok(d), replace).custom;
    let k = key(after[p]);
    assert(after == merged(before, d.tokens));
    lemma_layout(before, d.tokens);
    assert(last_of_key(d.tokens, k) >= 0);
    lemma_last_of_key(d.tokens, k);
    lemma_last_of_key(after, k);
    let i = last_of_key(d.tokens, k);
    lemma_last_is(d.tokens, i);
    law_last_entry_wins(before, d.tokens, k);
    let at = last_of_key(after, k);
    if at > p {
        assert(key(after[p]) != key(after[at]));
    }
    if at < p {
        assert(key(after[p]) != k);
    }
    assert(d.tokens[i] == after[p]);
    assert forall|q: int| p < q < after.len() implies exists|i: int|
        0 <= i < d.tokens.len() && alike(#[trigger] d.tokens[i], after[p]) && forall|j: int|
            0 <= j <= i ==> !alike(#[trigger] d.tokens[j], #[trigger] after[q]) by {
        assert(comes_before(d.tokens, key(after[p]), key(after[q])));
        let i = choose|i: int|
            0 <= i < d.tokens.len() && key(#[trigger] d.tokens[i]) == k && forall|j: int|
                0 <= j <= i ==> key(#[trigger] d.tokens[j]) != key(after[q]);
        assert(alike(d.tokens[i], after[p]));
        assert forall|j: int| 0 <= j <= i implies !alike(
            #[trigger] d.tokens[j],
            #[trigger] after[q],
        ) by {
            assert(key(d.tokens[j]) != key(after[q]));
        }
    }
}

} // verus!
