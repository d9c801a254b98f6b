//! What is offered: the pinned tokens always, a snapshot as long as it is enabled.
use vstd::prelude::*;

use crate::catalogue::{
    has_key, is_served, key, lemma_filter_empty, lemma_filter_push, lemma_served_sound,
    lemma_without, other_than, without,
};
use crate::laws::edits::law_add_replaces;
use crate::model::{all_normalized, among, finds, not_among, offered_on, page, row_tokens, ListView};
use crate::module::MutationView;
use crate::offered::{pinned_tokens, pins, OfferedError};
use crate::text::{normalized, occurs_in};
use crate::token::TokenView;

verus! {

/// What a filter leaves is what there was that passes it.
proof fn lemma_filter_contains<A>(s: Seq<A>, p: spec_fn(A) -> bool, x: A)
    ensures
        s.filter(p).contains(x) <==> s.contains(x) && p(x),
    decreases s.len(),
{
    if s.len() == 0 {
        assert(s =~= Seq::empty());
        lemma_filter_empty(p);
    } else {
        let prev = s.drop_last();
        let r = s.filter(p);
        let q = prev.filter(p);
        lemma_filter_contains(prev, p, x);
        assert(prev.push(s.last()) =~= s);
        lemma_filter_push(prev, s.last(), p);
        if s.contains(x) {
            let i = s.index_of(x);
            if i < prev.len() {
                assert(prev[i] == x);
            }
        }
        if prev.contains(x) {
            assert(s[prev.index_of(x)] == x);
        }
        if q.contains(x) {
            assert(r[q.index_of(x)] == x);
        }
        if r.contains(x) {
            let i = r.index_of(x);
            if i < q.len() {
                assert(q[i] == x);
            } else {
                assert(s[s.len() - 1] == x);
            }
        }
        if p(s.last()) && s.last() == x {
            assert(r[q.len() as int] == x);
        }
    }
}

/// The offered tokens of a chain are its pinned ones, followed by the snapshots on that chain that
/// are not pinned.
pub proof fn law_offered_are_pinned_then_enabled(v: ListView, chain_id: u64, t: TokenView)
    ensures
        v.offered(chain_id).take(pinned_tokens(chain_id).len() as int) == pinned_tokens(chain_id),
        v.offered(chain_id).skip(pinned_tokens(chain_id).len() as int).contains(t)
            <==> v.enabled.contains(t) && t.chain_id == chain_id && !pins(chain_id, t.address),
{
    let pinned = pinned_tokens(chain_id);
    let rest = v.enabled.filter(offered_on(chain_id));
    assert(v.offered(chain_id).take(pinned.len() as int) =~= pinned);
    assert(v.offered(chain_id).skip(pinned.len() as int) =~= rest);
    lemma_filter_contains(v.enabled, offered_on(chain_id), t);
}

/// The token that the catalogue lists for an address is on that chain and has that address.
pub proof fn lemma_listed(v: ListView, chain_id: u64, address: Seq<char>)
    requires
        v.listed(chain_id, address) is Some,
    ensures
        key(v.listed(chain_id, address)->0) == (chain_id, normalized(address)),
{
    let want = Some(all_normalized(seq![address]));
    let all = v.catalogue();
    let rows = v.rows_at(chain_id, seq![address]);
    lemma_served_sound(all, chain_id, want);
    let i = choose|i: int|
        0 <= i < all.len() && #[trigger] all[i] == rows[0] && is_served(all, i, chain_id, want);
    let w = all_normalized(seq![address]);
    let j = w.index_of(normalized(all[i].token.address));
    assert(w[j] == normalized(seq![address][j]));
}

/// Enabling a token stores the row that the catalogue serves for it, to the letter, and enabling it
/// again changes nothing. An address that the catalogue does not describe is refused.
pub proof fn law_enabling_takes_a_snapshot(v: ListView, chain_id: u64, address: Seq<char>)
    requires
        !pins(chain_id, address),
    ensures
        match v.listed(chain_id, address) {
            Some(t) => {
                &&& v.toggled(chain_id, address, true).enabled.contains(t)
                &&& v.toggled(chain_id, address, true).toggled(chain_id, address, true)
                    == v.toggled(chain_id, address, true)
                &&& v.toggle_reply(chain_id, address, true) is Ok
            },
            None => {
                &&& v.toggled(chain_id, address, true) == v
                &&& v.toggle_reply(chain_id, address, true) == Err::<bool, OfferedError>(
                    OfferedError::NotListed,
                )
            },
        },
{
    if let Some(t) = v.listed(chain_id, address) {
        law_add_replaces(v.enabled, t);
        let after = v.toggled(chain_id, address, true);
        assert(after.catalogue() == v.catalogue());
        assert(after.listed(chain_id, address) == v.listed(chain_id, address));
    }
}

/// Disabling a token drops its snapshot and leaves every other one. It undoes enabling, where there
/// was no snapshot.
pub proof fn law_disabling_drops_the_snapshot(v: ListView, chain_id: u64, address: Seq<char>)
    requires
        !pins(chain_id, address),
    ensures
        !has_key(
            v.toggled(chain_id, address, false).enabled,
            (chain_id, normalized(address)),
        ),
        forall|t: TokenView|
            key(t) != (chain_id, normalized(address)) ==> (#[trigger] v.toggled(
                chain_id,
                address,
                false,
            ).enabled.contains(t) <==> v.enabled.contains(t)),
        !has_key(v.enabled, (chain_id, normalized(address))) ==> v.toggled(
            chain_id,
            address,
            true,
        ).toggled(chain_id, address, false).enabled == v.enabled,
{
    let k = (chain_id, normalized(address));
    lemma_without(v.enabled, k);
    if !has_key(v.enabled, k) {
        if let Some(t) = v.listed(chain_id, address) {
            lemma_listed(v, chain_id, address);
            if v.enabled.contains(t) {
                let i = v.enabled.index_of(t);
                assert(key(v.enabled[i]) == k);
            }
            lemma_filter_push(v.enabled, t, other_than(k));
            lemma_without(v.enabled.push(t), k);
            assert(key(v.enabled.push(t)[v.enabled.len() as int]) == k);
            assert(without(v.enabled.push(t), k) == v.enabled);
        }
    }
}

/// A pinned token is offered in every state, enabling it changes nothing, and it cannot be
/// disabled.
pub proof fn law_pinned_stays(v: ListView, chain_id: u64, address: Seq<char>, enable: bool)
    requires
        pins(chain_id, address),
    ensures
        v.toggled(chain_id, address, enable) == v,
        v.toggle_reply(chain_id, address, enable) == if enable {
            Ok::<bool, OfferedError>(false)
        } else {
            Err(OfferedError::Pinned)
        },
{
}

/// A snapshot outlives the list it was taken from: nothing but enabling and disabling moves what is
/// enabled.
pub proof fn law_only_a_toggle_moves_the_snapshots(m: MutationView, v: ListView, c: u64)
    requires
        !(m is SetTokenEnabled),
    ensures
        m.apply(v).enabled == v.enabled,
        m.apply(v).offered(c) == v.offered(c),
{
}

/// What is available begins with what is offered, and every address that the catalogue serves is
/// there.
pub proof fn law_available_holds_everything(v: ListView, chain_id: u64, n: int)
    requires
        0 <= n < v.rows(chain_id).len(),
    ensures
        v.available(chain_id).take(v.offered(chain_id).len() as int) == v.offered(chain_id),
        among(
            v.available(chain_id),
            normalized(v.rows(chain_id)[n].token.address),
        ),
{
    let offered = v.offered(chain_id);
    let all = v.available(chain_id);
    let tokens = row_tokens(v.rows(chain_id));
    let t = tokens[n];
    let p = not_among(offered);
    assert(all.take(offered.len() as int) =~= offered);
    if p(t) {
        lemma_filter_contains(tokens, p, t);
        let rest = tokens.filter(p);
        let i = rest.index_of(t);
        assert(all[offered.len() + i] == t);
        assert(normalized(all[offered.len() + i].address) == normalized(t.address));
    } else {
        let i = choose|i: int|
            0 <= i < offered.len() && normalized(#[trigger] offered[i].address) == normalized(
                t.address,
            );
        assert(normalized(all[i].address) == normalized(t.address));
    }
}

/// The empty query finds everything that is available.
pub proof fn law_no_query_finds_all(v: ListView, chain_id: u64)
    ensures
        v.found(chain_id, Seq::empty()) == v.available(chain_id),
{
    let none = Seq::<char>::empty();
    assert(normalized(none) =~= none);
    assert forall|t: TokenView| #[trigger] finds(none)(t) by {
        let symbol = normalized(t.symbol);
        assert(symbol.subrange(0, 0int + none.len()) =~= none);
        assert(occurs_in(none, symbol));
    }
    lemma_filter_all(v.available(chain_id), finds(none));
}

proof fn lemma_filter_all<A>(s: Seq<A>, p: spec_fn(A) -> bool)
    requires
        forall|x: A| #[trigger] p(x),
    ensures
        s.filter(p) == s,
    decreases s.len(),
{
    if s.len() == 0 {
        assert(s =~= Seq::empty());
        lemma_filter_empty(p);
    } else {
        lemma_filter_all(s.drop_last(), p);
        assert(s.drop_last().push(s.last()) =~= s);
        lemma_filter_push(s.drop_last(), s.last(), p);
    }
}

/// Pages make up the whole: none is longer than its limit, and where one ends the next begins.
pub proof fn law_pages_make_up_the_whole(tokens: Seq<TokenView>, offset: nat, limit: nat)
    ensures
        page(tokens, 0, None) == tokens,
        page(tokens, offset, Some(limit)).len() <= limit,
        page(tokens, offset, Some(limit)) + page(tokens, offset + limit, None) == page(
            tokens,
            offset,
            None,
        ),
{
    assert(page(tokens, 0, None) =~= tokens);
    assert(page(tokens, offset, Some(limit)) + page(tokens, offset + limit, None) =~= page(
        tokens,
        offset,
        None,
    ));
}

} // verus!
