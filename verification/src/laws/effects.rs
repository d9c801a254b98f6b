//! What each call moves, what it answers, and what is heard of it.
use std::collections::hash_map::DefaultHasher;

use vstd::prelude::*;
use vstd::std_specs::hash::DefaultHasherAdditionalSpecFns;

use crate::catalogue::{key, lemma_without, other_than, without};
use crate::config::ConfigSource;
use crate::digest::{fingerprint, lemma_moved_chains, lists_moved, moved, moved_chains};
use crate::events::EventView;
use crate::laws::announcements::law_fingerprinted_chains;
use crate::laws::catalogue::law_one_row_for_each_address;
use crate::laws::edits::law_add_replaces;
use crate::laws::offered::lemma_listed;
use crate::laws::selection::{chosen, law_every_named_address_is_answered, lemma_filter_places};
use crate::model::ListView;
use crate::module::{heard, moved_between, updates, MutationView, OutcomeView};
use crate::offered::{pinned_tokens, pins, OfferedError};
use crate::text::normalized;

verus! {

/// Each call of the module is the operation of the list that it is named after.
pub proof fn law_calls_are_operations(m: MutationView, v: ListView)
    ensures
        m.apply(v) == match m {
            MutationView::Configure(w) => v.configured(w.over(v.config)),
            MutationView::InitDefaults => v.defaulted(),
            MutationView::ApplyRefresh(plan, fetched) => v.refreshed(plan, fetched),
            MutationView::SetTokenEnabled(c, a, on) => v.toggled(c, a, on),
            MutationView::AddCustomToken(t) => v.custom_added(t),
            MutationView::ImportCustomTokens(doc, replace) => v.imported(doc, replace),
            MutationView::RemoveCustomToken(c, a) => v.custom_removed(c, a),
        },
{
}

/// A call touches its own part of the list and leaves every other part as it was: an edit of the
/// configuration the record, a refresh the downloads and their status rows, a toggle the snapshots,
/// and the rest the user's own tokens.
pub proof fn law_each_call_touches_its_own(m: MutationView, v: ListView)
    ensures
        ({
            let after = m.apply(v);
            &&& after.shipped == v.shipped
            &&& after.backed == v.backed
            &&& !(m is Configure || m is InitDefaults) ==> after.config == v.config
                && after.config_source == v.config_source
            &&& !(m is ApplyRefresh) ==> after.downloaded == v.downloaded && after.sources
                == v.sources
            &&& !(m is SetTokenEnabled) ==> after.enabled == v.enabled
            &&& !(m is AddCustomToken || m is ImportCustomTokens || m is RemoveCustomToken)
                ==> after.custom == v.custom
        }),
{
}

/// A call answers with whether it moved its part of the list, or with how much that part holds now.
pub proof fn law_the_answer_tells_what_moved(m: MutationView, v: ListView)
    ensures
        ({
            let after = m.apply(v);
            match m {
                MutationView::Configure(_) => m.outcome(v) == OutcomeView::Configured(
                    after.config != v.config || after.config_source != v.config_source,
                ),
                MutationView::InitDefaults => m.outcome(v) == OutcomeView::Defaulted(
                    after.config_source != v.config_source,
                ),
                MutationView::ApplyRefresh(_, _) => m.outcome(v) matches OutcomeView::Refreshed(r)
                    && (r matches Ok(n) ==> n == after.downloaded.len()),
                MutationView::SetTokenEnabled(_, _, _) => m.outcome(v) matches OutcomeView::Toggled(
                    r,
                ) && (r matches Ok(changed) ==> changed == (after.enabled != v.enabled)),
                MutationView::AddCustomToken(_) => m.outcome(v) == OutcomeView::Added(
                    after.custom != v.custom,
                ),
                MutationView::ImportCustomTokens(_, _) => m.outcome(v) matches OutcomeView::Imported(
                    r,
                ) && (r matches Ok(n) ==> n == after.custom.len()),
                MutationView::RemoveCustomToken(_, _) => m.outcome(v) == OutcomeView::Removed(
                    after.custom != v.custom,
                ),
            }
        }),
{
    match m {
        MutationView::AddCustomToken(t) => {
            law_add_replaces(v.custom, t);
        },
        MutationView::RemoveCustomToken(c, a) => {
            lemma_without(v.custom, (c, normalized(a)));
        },
        MutationView::SetTokenEnabled(c, a, on) => {
            lemma_without(v.enabled, (c, normalized(a)));
            if let Some(t) = v.listed(c, a) {
                law_add_replaces(v.enabled, t);
            }
        },
        _ => {},
    }
}

/// A call fails only as it must: a refresh where it may not or could not fetch, an import where the
/// text is no document, a toggle where the address is not listed or is pinned. One that fails leaves
/// the list as it was.
pub proof fn law_when_a_call_fails(m: MutationView, v: ListView)
    ensures
        m matches MutationView::ApplyRefresh(plan, fetched) ==> {
            let refused = plan.proxy.required && plan.proxy.proxy is None || fetched is Err;
            &&& m.outcome(v) matches OutcomeView::Refreshed(r) && (r is Err <==> refused)
            &&& refused ==> m.apply(v) == v
        },
        m matches MutationView::ImportCustomTokens(doc, _) ==> {
            &&& m.outcome(v) matches OutcomeView::Imported(r) && (r is Err <==> doc is Err)
            &&& doc is Err ==> m.apply(v) == v
        },
        m matches MutationView::SetTokenEnabled(c, a, on) ==> {
            let refused = if pins(c, a) {
                !on
            } else {
                on && v.listed(c, a) is None
            };
            &&& m.outcome(v) matches OutcomeView::Toggled(r) && (r is Err <==> refused) && (
            r matches Err(e) ==> e == if on {
                OfferedError::NotListed
            } else {
                OfferedError::Pinned
            })
            &&& refused ==> m.apply(v) == v
        },
{
}

/// The catalogue lists, for an address, the token of the row that its chain serves for it, and none
/// exactly where no row has the address.
pub proof fn law_listed_is_the_row_served(v: ListView, c: u64, address: Seq<char>, n: int)
    requires
        0 <= n < v.rows(c).len(),
    ensures
        normalized(v.rows(c)[n].token.address) == normalized(address) ==> v.listed(c, address)
            == Some(v.rows(c)[n].token),
        v.listed(c, address) matches Some(t) ==> exists|k: int|
            0 <= k < v.rows(c).len() && #[trigger] v.rows(c)[k].token == t && normalized(t.address)
                == normalized(address),
{
    let rows = v.rows(c);
    let some = v.rows_at(c, seq![address]);
    let at = law_every_named_address_is_answered(v, c, seq![address]);
    if normalized(rows[n].token.address) == normalized(address) {
        assert(normalized(seq![address][0]) == normalized(rows[n].token.address));
        assert(at.contains(n));
        assert(at.contains(at[0]));
        assert(some[0] == rows[at[0]]);
        let i = choose|i: int|
            0 <= i < seq![address].len() && normalized(#[trigger] seq![address][i]) == normalized(
                rows[at[0]].token.address,
            );
        if at[0] < n {
            law_one_row_for_each_address(v, c, at[0], n);
        }
        if at[0] > n {
            law_one_row_for_each_address(v, c, n, at[0]);
        }
    }
    if some.len() > 0 {
        assert(at.contains(at[0]));
        assert(some[0] == rows[at[0]]);
        let i = choose|i: int|
            0 <= i < seq![address].len() && normalized(#[trigger] seq![address][i]) == normalized(
                rows[at[0]].token.address,
            );
        assert(rows[at[0]].token == some[0].token);
    }
}

/// Where a chain serves no row for an address the catalogue does not list it.
pub proof fn law_unserved_is_not_listed(v: ListView, c: u64, address: Seq<char>)
    requires
        forall|n: int|
            0 <= n < v.rows(c).len() ==> normalized((#[trigger] v.rows(c)[n]).token.address)
                != normalized(address),
    ensures
        v.listed(c, address) is None,
{
    let rows = v.rows(c);
    let some = v.rows_at(c, seq![address]);
    let at = law_every_named_address_is_answered(v, c, seq![address]);
    if some.len() > 0 {
        assert(at.contains(at[0]));
        assert(some[0] == rows[at[0]]);
        let i = choose|i: int|
            0 <= i < seq![address].len() && normalized(#[trigger] seq![address][i]) == normalized(
                rows[at[0]].token.address,
            );
        assert(normalized(rows[at[0]].token.address) == normalized(address));
    }
}

/// Enabling a token that is listed and not kept to the letter puts its snapshot at the end, drops
/// the one that was kept for its address, and keeps all others in their order.
pub proof fn law_a_new_snapshot_is_the_last(v: ListView, c: u64, address: Seq<char>) -> (at: Seq<
    int,
>)
    requires
        !pins(c, address),
        v.listed(c, address) is Some,
        !v.enabled.contains(v.listed(c, address)->0),
    ensures
        ({
            let after = v.toggled(c, address, true).enabled;
            &&& chosen(
                at,
                v.enabled.len(),
                |i: int|
                    v.enabled[i].chain_id != c || normalized(v.enabled[i].address) != normalized(
                        address,
                    ),
            )
            &&& after.len() == at.len() + 1
            &&& after.last() == v.listed(c, address)->0
            &&& forall|k: int| 0 <= k < at.len() ==> #[trigger] after[k] == v.enabled[at[k]]
        }),
{
    let t = v.listed(c, address)->0;
    lemma_listed(v, c, address);
    let at = lemma_filter_places(v.enabled, other_than(key(t)));
    let rest = without(v.enabled, key(t));
    let after = v.toggled(c, address, true).enabled;
    assert(after == rest.push(t));
    assert forall|k: int| 0 <= k < at.len() implies #[trigger] after[k] == v.enabled[at[k]] by {
        assert(after[k] == rest[k]);
    }
    at
}

/// Disabling a token drops the snapshot of that chain and address and keeps all others in their
/// order.
pub proof fn law_disabling_keeps_the_others(v: ListView, c: u64, address: Seq<char>) -> (at: Seq<
    int,
>)
    requires
        !pins(c, address),
    ensures
        chosen(
            at,
            v.enabled.len(),
            |i: int|
                v.enabled[i].chain_id != c || normalized(v.enabled[i].address) != normalized(
                    address,
                ),
        ),
        v.toggled(c, address, false).enabled.len() == at.len(),
        forall|k: int|
            0 <= k < at.len() ==> #[trigger] v.toggled(c, address, false).enabled[k]
                == v.enabled[at[k]],
{
    let k = (c, normalized(address));
    lemma_without(v.enabled, k);
    lemma_filter_places(v.enabled, other_than(k))
}

/// The fingerprint of a chain is the hash of what is written down of it. A chain has one exactly
/// when it serves a row or offers more than what is pinned.
pub proof fn law_the_fingerprint_is_hashed(v: ListView, c: u64)
    ensures
        v.digests().get(c) == if v.rows(c).len() > 0 || v.offered(c).len() > pinned_tokens(
            c,
        ).len() {
            Some(DefaultHasher::spec_finish(seq![fingerprint(v.rows(c), v.offered(c))]))
        } else {
            None
        },
{
    law_fingerprinted_chains(v, c);
}

/// Two snapshots differ in the chains that do not have the same fingerprint in both, or have one in
/// one of them only; they are told in ascending order.
pub proof fn law_changed_chains_are_those_that_differ(
    before: Map<u64, u64>,
    after: Map<u64, u64>,
    chains: Seq<u64>,
)
    requires
        forall|i: int, j: int| 0 <= i < j < chains.len() ==> chains[i] < chains[j],
        forall|c: u64| #[trigger] chains.contains(c) <==> before.get(c) != after.get(c),
    ensures
        moved_chains(before, after) == chains,
{
    assert forall|c: u64| #[trigger] chains.contains(c) <==> moved(before, after, c) by {}
    assert(lists_moved(chains, before, after));
    lemma_moved_chains(chains, before, after);
}

/// Between two states of a list, each chain whose fingerprint differs is heard of once, in ascending
/// order, and after them the configuration, with the word of its new source, exactly when it or its
/// source is not what it was. Nothing else is heard.
pub proof fn law_what_is_heard(before: ListView, after: ListView, chains: Seq<u64>)
    requires
        forall|i: int, j: int| 0 <= i < j < chains.len() ==> chains[i] < chains[j],
        forall|c: u64| #[trigger]
            chains.contains(c) <==> before.digests().get(c) != after.digests().get(c),
    ensures
        ({
            let all = heard(before, after);
            let edited = before.config != after.config || before.config_source
                != after.config_source;
            let word = match after.config_source {
                ConfigSource::Unset => "none"@,
                ConfigSource::Default => "default"@,
                ConfigSource::External => "external"@,
            };
            &&& all.len() == chains.len() + if edited {
                1int
            } else {
                0
            }
            &&& forall|i: int|
                0 <= i < chains.len() ==> #[trigger] all[i] == EventView::TokensUpdated(
                    chains[i] as i64,
                )
            &&& edited ==> all.last() == EventView::ConfigChanged(word)
        }),
{
    law_changed_chains_are_those_that_differ(before.digests(), after.digests(), chains);
    assert(moved_between(before, after) == chains);
    assert(updates(chains).len() == chains.len());
}

} // verus!
