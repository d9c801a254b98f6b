//! What is announced is what really moved.
use vstd::prelude::*;

use crate::catalogue::{
    ascending, lemma_chain_ids, lemma_filter_empty, lemma_filter_push, lemma_with_chain, on_chain,
    with_chain,
};
use crate::config::{ConfigSource, ConfigView};
use crate::digest::{digest_of, fingerprint, lemma_moved_chains, lists_moved, moved, moved_chains};
use crate::events::EventView;
use crate::laws::catalogue::law_chains_are_those_that_serve;
use crate::laws::fingerprint::law_fingerprint_tells_replies_apart;
use crate::laws::state::law_only_an_edit_moves_the_configuration;
use crate::model::{not_pinned, offered_on, ListView};
use crate::module::{heard, moved_between, record_moved, updates, MutationView, OutcomeView};
use crate::offered::pinned_tokens;
use crate::token::TokenView;

verus! {

/// What callers see of a chain is the same in both states.
pub open spec fn serves_alike(before: ListView, after: ListView, c: u64) -> bool {
    before.rows(c) == after.rows(c) && before.offered(c) == after.offered(c)
}

proof fn lemma_on_chain_of_both(a: Seq<TokenView>, b: Seq<TokenView>, c: u64)
    ensures
        on_chain(a + b, c) <==> on_chain(a, c) || on_chain(b, c),
{
    let both = a + b;
    if on_chain(a, c) {
        let i = choose|i: int| 0 <= i < a.len() && (#[trigger] a[i]).chain_id == c;
        assert(both[i].chain_id == c);
    }
    if on_chain(b, c) {
        let i = choose|i: int| 0 <= i < b.len() && (#[trigger] b[i]).chain_id == c;
        assert(both[a.len() + i].chain_id == c);
    }
    if on_chain(both, c) {
        let i = choose|i: int| 0 <= i < both.len() && (#[trigger] both[i]).chain_id == c;
        if i < a.len() {
            assert(a[i].chain_id == c);
        } else {
            assert(b[i - a.len()].chain_id == c);
        }
    }
}

/// A chain has a snapshot that is not of a pinned token exactly when it offers one.
proof fn lemma_snapshots_on_chain(tokens: Seq<TokenView>, c: u64)
    ensures
        on_chain(tokens.filter(not_pinned()), c) <==> tokens.filter(offered_on(c)).len() > 0,
    decreases tokens.len(),
{
    if tokens.len() == 0 {
        assert(tokens =~= Seq::empty());
        lemma_filter_empty(not_pinned());
        lemma_filter_empty(offered_on(c));
    } else {
        let prev = tokens.drop_last();
        let t = tokens.last();
        lemma_snapshots_on_chain(prev, c);
        assert(prev.push(t) =~= tokens);
        lemma_filter_push(prev, t, not_pinned());
        lemma_filter_push(prev, t, offered_on(c));
        let p = prev.filter(not_pinned());
        let r = tokens.filter(not_pinned());
        if on_chain(p, c) {
            let i = choose|i: int| 0 <= i < p.len() && (#[trigger] p[i]).chain_id == c;
            assert(r[i].chain_id == c);
        }
        if on_chain(r, c) {
            let i = choose|i: int| 0 <= i < r.len() && (#[trigger] r[i]).chain_id == c;
            if i < p.len() {
                assert(p[i].chain_id == c);
            }
        }
        if not_pinned()(t) && t.chain_id == c {
            assert(r[p.len() as int].chain_id == c);
        }
    }
}

/// A chain is fingerprinted exactly when it serves a row or offers more than what is pinned.
pub proof fn law_fingerprinted_chains(v: ListView, c: u64)
    ensures
        v.digests().contains_key(c) <==> v.rows(c).len() > 0 || v.offered(c).len()
            > pinned_tokens(c).len(),
        v.digests().contains_key(c) ==> v.digests()[c] == digest_of(
            fingerprint(v.rows(c), v.offered(c)),
        ),
{
    let snapshots = v.enabled.filter(not_pinned());
    lemma_chain_ids(v.catalogue_tokens() + snapshots);
    lemma_on_chain_of_both(v.catalogue_tokens(), snapshots, c);
    lemma_snapshots_on_chain(v.enabled, c);
    law_chains_are_those_that_serve(v, c);
}

/// A chain of which callers see the same as before is not announced.
pub proof fn law_unmoved_chain_is_not_announced(before: ListView, after: ListView, c: u64)
    requires
        serves_alike(before, after, c),
    ensures
        !moved(before.digests(), after.digests(), c),
{
    law_fingerprinted_chains(before, c);
    law_fingerprinted_chains(after, c);
}

/// A chain of which callers see anything else than before is announced, also one that appeared or
/// vanished; but for two different fingerprints with one hash.
pub proof fn law_moved_chain_is_announced(before: ListView, after: ListView, c: u64)
    requires
        !serves_alike(before, after, c),
    ensures
        ({
            let f = fingerprint(before.rows(c), before.offered(c));
            let g = fingerprint(after.rows(c), after.offered(c));
            f != g && (digest_of(f) != digest_of(g) ==> moved(
                before.digests(),
                after.digests(),
                c,
            ))
        }),
{
    law_fingerprinted_chains(before, c);
    law_fingerprinted_chains(after, c);
    law_fingerprint_tells_replies_apart(
        before.rows(c),
        before.offered(c),
        after.rows(c),
        after.offered(c),
    );
    if !before.digests().contains_key(c) && !after.digests().contains_key(c) {
        assert(before.rows(c) =~= after.rows(c));
        assert(before.enabled.filter(offered_on(c)) =~= after.enabled.filter(offered_on(c)));
    }
}

/// The chains of a list that have some property, in ascending order.
proof fn lemma_select(list: Seq<u64>, p: spec_fn(u64) -> bool) -> (s: Seq<u64>)
    ensures
        ascending(s),
        forall|c: u64| #[trigger] s.contains(c) <==> list.contains(c) && p(c),
    decreases list.len(),
{
    if list.len() == 0 {
        Seq::empty()
    } else {
        let prev = list.drop_last();
        let s = lemma_select(prev, p);
        let c = list.last();
        lemma_with_chain(s, c);
        assert forall|x: u64| list.contains(x) <==> prev.contains(x) || x == c by {
            if prev.contains(x) {
                assert(list[prev.index_of(x)] == x);
            }
            if x == c {
                assert(list[list.len() - 1] == x);
            }
            if list.contains(x) && x != c {
                assert(prev[list.index_of(x)] == x);
            }
        }
        if p(c) {
            with_chain(s, c)
        } else {
            s
        }
    }
}

/// Between two states, the chains that moved are announced, each once and in ascending order, and
/// no other chain is.
pub proof fn law_each_moved_chain_once(before: ListView, after: ListView)
    ensures
        ascending(moved_between(before, after)),
        forall|c: u64|
            #[trigger] moved_between(before, after).contains(c) <==> moved(
                before.digests(),
                after.digests(),
                c,
            ),
{
    let p = |c: u64| moved(before.digests(), after.digests(), c);
    let all = before.digest_chains() + after.digest_chains();
    let s = lemma_select(all, p);
    assert forall|c: u64| #[trigger] s.contains(c) <==> moved(
        before.digests(),
        after.digests(),
        c,
    ) by {
        if moved(before.digests(), after.digests(), c) {
            if before.digest_chains().contains(c) {
                assert(all[before.digest_chains().index_of(c)] == c);
            } else {
                assert(after.digest_chains().contains(c));
                assert(all[before.digest_chains().len() + after.digest_chains().index_of(c)] == c);
            }
            assert(p(c));
        }
        if s.contains(c) {
            assert(p(c));
        }
    }
    lemma_moved_chains(s, before.digests(), after.digests());
}

proof fn lemma_no_updates(before: ListView, after: ListView)
    requires
        forall|c: u64| #[trigger] serves_alike(before, after, c),
    ensures
        updates(moved_between(before, after)) == Seq::<EventView>::empty(),
{
    law_each_moved_chain_once(before, after);
    let s = moved_between(before, after);
    if s.len() > 0 {
        assert(s.contains(s[0]));
        assert(serves_alike(before, after, s[0]));
        law_unmoved_chain_is_not_announced(before, after, s[0]);
    }
    assert(updates(s) =~= Seq::empty());
}

/// A call after which callers see the same as before, and which leaves the configuration record
/// alone, announces nothing at all.
pub proof fn law_nothing_moved_nothing_announced(before: ListView, after: ListView)
    requires
        forall|c: u64| #[trigger] serves_alike(before, after, c),
        !record_moved(before, after),
    ensures
        heard(before, after) == Seq::<EventView>::empty(),
{
    lemma_no_updates(before, after);
    assert(heard(before, after) =~= Seq::empty());
}

/// A call that leaves the list as it was announces nothing.
pub proof fn law_no_change_no_event(v: ListView)
    ensures
        heard(v, v) == Seq::<EventView>::empty(),
{
    assert forall|c: u64| #[trigger] serves_alike(v, v, c) by {}
    law_nothing_moved_nothing_announced(v, v);
}

/// An edit of the configuration that leaves the shipped list on, or off, moves no row: it is
/// announced as a change of the configuration and as nothing else.
pub proof fn law_most_edits_move_no_row(v: ListView, config: ConfigView)
    requires
        config.use_embedded_list == v.config.use_embedded_list,
        !v.holds(config),
    ensures
        heard(v, v.configured(config)) == seq![
            EventView::ConfigChanged(ConfigSource::External.word()),
        ],
{
    let after = v.configured(config);
    assert forall|c: u64| #[trigger] serves_alike(v, after, c) by {
        assert(after.catalogue() == v.catalogue());
    }
    lemma_no_updates(v, after);
    assert(heard(v, after) =~= seq![EventView::ConfigChanged(ConfigSource::External.word())]);
}

/// The defaults are what an unconfigured list serves already: applying them is announced as a
/// change of the configuration, and moves no row.
pub proof fn law_defaults_move_no_row(v: ListView)
    requires
        v.defaults_while_unset(),
        v.config_source == ConfigSource::Unset,
    ensures
        heard(v, v.defaulted()) == seq![EventView::ConfigChanged(ConfigSource::Default.word())],
{
    let after = v.defaulted();
    assert forall|c: u64| #[trigger] serves_alike(v, after, c) by {
        assert(after.catalogue() == v.catalogue());
    }
    lemma_no_updates(v, after);
    assert(heard(v, after) =~= seq![EventView::ConfigChanged(ConfigSource::Default.word())]);
}

/// Whatever is called, a change of the configuration is announced exactly when the stored record
/// moved, after the chains that moved.
pub proof fn law_record_is_announced_when_it_moved(m: MutationView, v: ListView)
    ensures
        ({
            let after = m.apply(v);
            let chains = updates(moved_between(v, after));
            heard(v, after) == if m.outcome(v)
                == OutcomeView::Configured(true) || m.outcome(v)
                == OutcomeView::Defaulted(true) {
                chains.push(EventView::ConfigChanged(after.config_source.word()))
            } else {
                chains
            }
        }),
{
    law_only_an_edit_moves_the_configuration(m, v);
    let after = m.apply(v);
    let chains = updates(moved_between(v, after));
    if record_moved(v, after) {
        assert(heard(v, after) =~= chains.push(
            EventView::ConfigChanged(after.config_source.word()),
        ));
    } else {
        assert(heard(v, after) =~= chains);
    }
}

/// Two snapshots differ in no chain exactly when they are the same, and which of them came first
/// does not matter to which chains differ.
pub proof fn law_difference_of_snapshots(a: Map<u64, u64>, b: Map<u64, u64>)
    ensures
        (forall|c: u64| !#[trigger] moved(a, b, c)) <==> a == b,
        forall|c: u64| #[trigger] moved(a, b, c) <==> moved(b, a, c),
        moved_chains(a, a) == Seq::<u64>::empty(),
{
    if forall|c: u64| !#[trigger] moved(a, b, c) {
        assert forall|c: u64| #[trigger] a.dom().contains(c) <==> b.dom().contains(c) by {
            assert(!moved(a, b, c));
        }
        assert forall|c: u64| #[trigger] a.dom().contains(c) implies a[c] == b[c] by {
            assert(!moved(a, b, c));
        }
        assert(a =~= b);
    }
    assert(lists_moved(Seq::<u64>::empty(), a, a));
    lemma_moved_chains(Seq::empty(), a, a);
}

} // verus!
