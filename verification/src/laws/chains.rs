//! Chains are apart: what a chain serves is a matter of its own tokens, and an edit that moves
//! anything moves the chain it speaks of.
use vstd::prelude::*;

use crate::catalogue::{
    has_key, key, labelled, last_of_key, lemma_filter_empty, lemma_filter_push, lemma_last_of_key,
    lemma_served_push, lemma_without, merged, on_chain, other_than, served, upserted, without,
};
use crate::laws::announcements::{
    law_each_moved_chain_once, law_unmoved_chain_is_not_announced, serves_alike,
};
use crate::laws::catalogue::{law_a_row_for_every_token, law_precedence};
use crate::laws::edits::{
    distinct_keys, law_add_replaces, law_added_token_is_served, law_merge_keeps_keys_apart, leads,
};
use crate::laws::offered::{law_offered_are_pinned_then_enabled, lemma_listed};
use crate::model::{is_on, offered_on, ListView};
use crate::module::{moved_between, MutationView};
use crate::offered::{pins, OfferedError};
use crate::text::normalized;
use crate::token::{parsed, DocView, RowView, TokenSource, TokenView};

verus! {

/// A row is on a chain.
pub open spec fn row_on(c: u64) -> spec_fn(RowView) -> bool {
    |r: RowView| r.token.chain_id == c
}

/// Rows of other chains have no part in what a chain serves.
proof fn lemma_served_on_chain(all: Seq<RowView>, c: u64)
    ensures
        served(all, c, None) == served(all.filter(row_on(c)), c, None),
    decreases all.len(),
{
    if all.len() == 0 {
        assert(all =~= Seq::empty());
        lemma_filter_empty(row_on(c));
    } else {
        let prev = all.drop_last();
        let row = all.last();
        assert(prev.push(row) =~= all);
        lemma_served_on_chain(prev, c);
        lemma_filter_push(prev, row, row_on(c));
        lemma_served_push(prev, row, c, None);
        lemma_served_push(prev.filter(row_on(c)), row, c, None);
    }
}

proof fn lemma_labelled_on_chain(tokens: Seq<TokenView>, source: TokenSource, c: u64)
    ensures
        labelled(tokens, source).filter(row_on(c)) == labelled(tokens.filter(is_on(c)), source),
    decreases tokens.len(),
{
    if tokens.len() == 0 {
        assert(tokens =~= Seq::empty());
        lemma_filter_empty(is_on(c));
        lemma_filter_empty(row_on(c));
        assert(labelled(tokens, source) =~= Seq::empty());
    } else {
        let prev = tokens.drop_last();
        let t = tokens.last();
        lemma_labelled_on_chain(prev, source, c);
        assert(prev.push(t) =~= tokens);
        assert(labelled(prev, source).push(RowView { token: t, source }) =~= labelled(
            tokens,
            source,
        ));
        lemma_filter_push(prev, t, is_on(c));
        lemma_filter_push(labelled(prev, source), RowView { token: t, source }, row_on(c));
        assert(labelled(tokens, source).filter(row_on(c)) =~= labelled(
            tokens.filter(is_on(c)),
            source,
        ));
    }
}

proof fn lemma_catalogue_on_chain(v: ListView, c: u64)
    ensures
        v.catalogue().filter(row_on(c)) == labelled(v.custom.filter(is_on(c)), TokenSource::Custom)
            + labelled(v.downloaded.filter(is_on(c)), TokenSource::Downloaded) + labelled(
            v.embedded().filter(is_on(c)),
            TokenSource::Embedded,
        ),
{
    let a = labelled(v.custom, TokenSource::Custom);
    let b = labelled(v.downloaded, TokenSource::Downloaded);
    let d = labelled(v.embedded(), TokenSource::Embedded);
    Seq::filter_distributes_over_add(a + b, d, row_on(c));
    Seq::filter_distributes_over_add(a, b, row_on(c));
    lemma_labelled_on_chain(v.custom, TokenSource::Custom, c);
    lemma_labelled_on_chain(v.downloaded, TokenSource::Downloaded, c);
    lemma_labelled_on_chain(v.embedded(), TokenSource::Embedded, c);
}

/// What is filtered twice, by a weaker condition first, is filtered by the stronger one.
proof fn lemma_filter_twice<A>(s: Seq<A>, q: spec_fn(A) -> bool, p: spec_fn(A) -> bool)
    requires
        forall|x: A| #[trigger] p(x) ==> q(x),
    ensures
        s.filter(q).filter(p) == s.filter(p),
    decreases s.len(),
{
    if s.len() == 0 {
        assert(s =~= Seq::empty());
        lemma_filter_empty(q);
    } else {
        let prev = s.drop_last();
        let x = s.last();
        lemma_filter_twice(prev, q, p);
        assert(prev.push(x) =~= s);
        lemma_filter_push(prev, x, q);
        lemma_filter_push(prev, x, p);
        lemma_filter_push(prev.filter(q), x, p);
    }
}

/// What a chain serves and offers depends on the tokens of that chain alone: where the buckets and
/// the snapshots hold the same on it, callers see the same of it.
pub proof fn law_a_chain_is_its_own_tokens(before: ListView, after: ListView, c: u64)
    requires
        before.custom.filter(is_on(c)) == after.custom.filter(is_on(c)),
        before.downloaded.filter(is_on(c)) == after.downloaded.filter(is_on(c)),
        before.embedded().filter(is_on(c)) == after.embedded().filter(is_on(c)),
        before.enabled.filter(is_on(c)) == after.enabled.filter(is_on(c)),
    ensures
        serves_alike(before, after, c),
{
    lemma_served_on_chain(before.catalogue(), c);
    lemma_served_on_chain(after.catalogue(), c);
    lemma_catalogue_on_chain(before, c);
    lemma_catalogue_on_chain(after, c);
    lemma_filter_twice(before.enabled, is_on(c), offered_on(c));
    lemma_filter_twice(after.enabled, is_on(c), offered_on(c));
}

proof fn lemma_without_on_chain(tokens: Seq<TokenView>, k: (u64, Seq<char>), c: u64)
    requires
        k.0 != c,
    ensures
        without(tokens, k).filter(is_on(c)) == tokens.filter(is_on(c)),
{
    lemma_filter_twice(tokens, other_than(k), is_on(c));
}

proof fn lemma_upserted_on_chain(tokens: Seq<TokenView>, t: TokenView, c: u64)
    requires
        t.chain_id != c,
    ensures
        upserted(tokens, t).filter(is_on(c)) == tokens.filter(is_on(c)),
{
    lemma_without_on_chain(tokens, key(t), c);
    lemma_filter_push(without(tokens, key(t)), t, is_on(c));
}

proof fn lemma_update_on_chain(tokens: Seq<TokenView>, at: int, t: TokenView, c: u64)
    requires
        0 <= at < tokens.len(),
        tokens[at].chain_id != c,
        t.chain_id != c,
    ensures
        tokens.update(at, t).filter(is_on(c)) == tokens.filter(is_on(c)),
    decreases tokens.len(),
{
    let prev = tokens.drop_last();
    let r = tokens.update(at, t);
    assert(prev.push(tokens.last()) =~= tokens);
    assert(r.drop_last().push(r.last()) =~= r);
    lemma_filter_push(prev, tokens.last(), is_on(c));
    lemma_filter_push(r.drop_last(), r.last(), is_on(c));
    if at < prev.len() {
        lemma_update_on_chain(prev, at, t, c);
        assert(r.drop_last() =~= prev.update(at, t));
    } else {
        assert(r.drop_last() =~= prev);
    }
}

proof fn lemma_merged_on_chain(tokens: Seq<TokenView>, more: Seq<TokenView>, c: u64)
    requires
        !on_chain(more, c),
    ensures
        merged(tokens, more).filter(is_on(c)) == tokens.filter(is_on(c)),
    decreases more.len(),
{
    if more.len() > 0 {
        let prev = more.drop_last();
        let t = more[more.len() - 1];
        assert(!on_chain(prev, c)) by {
            if on_chain(prev, c) {
                let i = choose|i: int| 0 <= i < prev.len() && (#[trigger] prev[i]).chain_id == c;
                assert(more[i].chain_id == c);
            }
        }
        lemma_merged_on_chain(tokens, prev, c);
        let now = merged(tokens, prev);
        lemma_last_of_key(now, key(t));
        let at = last_of_key(now, key(t));
        if at < 0 {
            lemma_filter_push(now, t, is_on(c));
        } else {
            lemma_update_on_chain(now, at, t, c);
        }
    }
}

proof fn lemma_none_on_chain(tokens: Seq<TokenView>, c: u64)
    requires
        !on_chain(tokens, c),
    ensures
        tokens.filter(is_on(c)) == Seq::<TokenView>::empty(),
    decreases tokens.len(),
{
    if tokens.len() == 0 {
        assert(tokens =~= Seq::empty());
        lemma_filter_empty(is_on(c));
    } else {
        let prev = tokens.drop_last();
        let t = tokens[tokens.len() - 1];
        assert(!on_chain(prev, c)) by {
            if on_chain(prev, c) {
                let i = choose|i: int| 0 <= i < prev.len() && (#[trigger] prev[i]).chain_id == c;
                assert(tokens[i].chain_id == c);
            }
        }
        lemma_none_on_chain(prev, c);
        assert(prev.push(t) =~= tokens);
        lemma_filter_push(prev, t, is_on(c));
    }
}

/// A mutation names the chains it is about. An edit of the configuration is about all of them,
/// since it may turn the shipped list on or off; a refresh about those that were or are downloaded;
/// an import about those of the document and, where it replaces, those of the user's tokens.
pub open spec fn is_about(m: MutationView, v: ListView, c: u64) -> bool {
    match m {
        MutationView::Configure(_) => true,
        MutationView::InitDefaults => true,
        MutationView::ApplyRefresh(_, _) => on_chain(v.downloaded, c) || on_chain(
            m.apply(v).downloaded,
            c,
        ),
        MutationView::SetTokenEnabled(d, _, _) => d == c,
        MutationView::AddCustomToken(t) => t.chain_id == c,
        MutationView::ImportCustomTokens(doc, replace) => match parsed(doc) {
            Ok((_, tokens)) => on_chain(tokens, c) || replace && on_chain(v.custom, c),
            Err(_) => false,
        },
        MutationView::RemoveCustomToken(d, _) => d == c,
    }
}

/// A mutation leaves the chains alone that it is not about: callers see of them what they saw
/// before.
pub proof fn law_other_chains_stay(m: MutationView, v: ListView, c: u64)
    requires
        !is_about(m, v, c),
    ensures
        serves_alike(v, m.apply(v), c),
{
    let after = m.apply(v);
    match m {
        MutationView::ApplyRefresh(_, _) => {
            lemma_none_on_chain(v.downloaded, c);
            lemma_none_on_chain(after.downloaded, c);
        },
        MutationView::SetTokenEnabled(d, a, _) => {
            lemma_without_on_chain(v.enabled, (d, normalized(a)), c);
            if let Some(t) = v.listed(d, a) {
                lemma_listed(v, d, a);
                lemma_upserted_on_chain(v.enabled, t, c);
            }
        },
        MutationView::AddCustomToken(t) => {
            lemma_upserted_on_chain(v.custom, t, c);
        },
        MutationView::ImportCustomTokens(doc, replace) => {
            if let Ok((_, tokens)) = parsed(doc) {
                lemma_merged_on_chain(v.custom, tokens, c);
                lemma_merged_on_chain(Seq::empty(), tokens, c);
                if replace {
                    lemma_none_on_chain(v.custom, c);
                    lemma_filter_empty(is_on(c));
                }
            }
        },
        MutationView::RemoveCustomToken(d, a) => {
            lemma_without_on_chain(v.custom, (d, normalized(a)), c);
        },
        _ => {},
    }
    law_a_chain_is_its_own_tokens(v, after, c);
}

/// To add a token that was not there to the letter changes what its chain serves.
pub proof fn law_added_token_moves_its_chain(v: ListView, t: TokenView)
    requires
        !v.custom.contains(t),
    ensures
        !serves_alike(v, v.custom_added(t), t.chain_id),
{
    law_added_token_is_served(v, t);
    let row = RowView { token: t, source: TokenSource::Custom };
    if v.rows(t.chain_id).contains(row) {
        law_precedence(v, t.chain_id, v.rows(t.chain_id).index_of(row));
    }
}

/// To remove a token that was there changes what its chain serves.
pub proof fn law_removed_token_moves_its_chain(v: ListView, chain_id: u64, address: Seq<char>)
    requires
        has_key(v.custom, (chain_id, normalized(address))),
    ensures
        !serves_alike(v, v.custom_removed(chain_id, address), chain_id),
{
    let k = (chain_id, normalized(address));
    let after = v.custom_removed(chain_id, address);
    let rows = v.rows(chain_id);
    lemma_without(v.custom, k);
    law_a_row_for_every_token(v, chain_id, normalized(address));
    let n = choose|n: int|
        0 <= n < rows.len() && normalized(#[trigger] rows[n].token.address) == normalized(address);
    law_precedence(v, chain_id, n);
    if after.rows(chain_id) == rows {
        law_precedence(after, chain_id, n);
    }
}

/// A merge keeps every place and its key, and adds places at the end.
proof fn lemma_merge_keeps_places(tokens: Seq<TokenView>, more: Seq<TokenView>)
    ensures
        merged(tokens, more).len() >= tokens.len(),
        forall|i: int|
            0 <= i < tokens.len() ==> key(#[trigger] merged(tokens, more)[i]) == key(tokens[i]),
    decreases more.len(),
{
    if more.len() > 0 {
        let now = merged(tokens, more.drop_last());
        lemma_merge_keeps_places(tokens, more.drop_last());
        lemma_last_of_key(now, key(more.last()));
        let r = merged(tokens, more);
        assert forall|i: int| 0 <= i < tokens.len() implies key(#[trigger] r[i]) == key(
            tokens[i],
        ) by {
            assert(key(now[i]) == key(tokens[i]));
        }
    }
}

/// An import that merges and changes the user's tokens changes what some chain serves, where no
/// chain and address occurs twice among them.
pub proof fn law_merging_import_moves_a_chain(v: ListView, doc: Result<DocView, Seq<char>>)
    requires
        distinct_keys(v.custom),
        v.imported(doc, false).custom != v.custom,
    ensures
        exists|c: u64| !serves_alike(v, v.imported(doc, false), c),
{
    let after = v.imported(doc, false);
    let before = v.custom;
    let now = after.custom;
    if let Ok((_, tokens)) = parsed(doc) {
        lemma_merge_keeps_places(before, tokens);
        law_merge_keeps_keys_apart(before, tokens);
    }
    if forall|i: int| 0 <= i < before.len() ==> now[i] == before[i] {
        assert(now.len() > before.len()) by {
            if now.len() == before.len() {
                assert(now =~= before);
            }
        }
    }
    let at = if now.len() > before.len() {
        before.len() as int
    } else {
        choose|i: int| 0 <= i < before.len() && now[i] != before[i]
    };
    let t = now[at];
    if before.contains(t) {
        let i = before.index_of(t);
        assert(key(now[i]) == key(before[i]));
        if i != at {
            assert(key(now[i]) != key(now[at]));
        }
    }
    assert(leads(now, t));
    law_added_token_is_served(after, t);
    let row = RowView { token: t, source: TokenSource::Custom };
    if v.rows(t.chain_id).contains(row) {
        law_precedence(v, t.chain_id, v.rows(t.chain_id).index_of(row));
    }
    assert(!serves_alike(v, after, t.chain_id));
}

/// To enable a token whose snapshot is new, or not the one that was taken before, changes what its
/// chain offers.
pub proof fn law_enabled_token_moves_its_chain(v: ListView, chain_id: u64, address: Seq<char>)
    requires
        v.toggle_reply(chain_id, address, true) == Ok::<bool, OfferedError>(true),
        !pins(chain_id, v.listed(chain_id, address)->0.address),
    ensures
        !serves_alike(v, v.toggled(chain_id, address, true), chain_id),
{
    let t = v.listed(chain_id, address)->0;
    let after = v.toggled(chain_id, address, true);
    lemma_listed(v, chain_id, address);
    law_add_replaces(v.enabled, t);
    law_offered_are_pinned_then_enabled(v, chain_id, t);
    law_offered_are_pinned_then_enabled(after, chain_id, t);
}

/// To disable a token that was offered changes what its chain offers.
pub proof fn law_disabled_token_moves_its_chain(
    v: ListView,
    chain_id: u64,
    address: Seq<char>,
    t: TokenView,
)
    requires
        v.enabled.contains(t),
        key(t) == (chain_id, normalized(address)),
        !pins(chain_id, address),
        !pins(chain_id, t.address),
    ensures
        !serves_alike(v, v.toggled(chain_id, address, false), chain_id),
{
    let after = v.toggled(chain_id, address, false);
    lemma_without(v.enabled, key(t));
    assert(key(v.enabled[v.enabled.index_of(t)]) == key(t));
    law_offered_are_pinned_then_enabled(v, chain_id, t);
    law_offered_are_pinned_then_enabled(after, chain_id, t);
}

/// A call announces no chain that it is not about.
pub proof fn law_announced_chains_are_those_it_is_about(m: MutationView, v: ListView, c: u64)
    requires
        moved_between(v, m.apply(v)).contains(c),
    ensures
        is_about(m, v, c),
{
    law_each_moved_chain_once(v, m.apply(v));
    if !is_about(m, v, c) {
        law_other_chains_stay(m, v, c);
        law_unmoved_chain_is_not_announced(v, m.apply(v), c);
    }
}

} // verus!
