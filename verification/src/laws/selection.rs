//! Which tokens a reply holds and in what order, told by their places in the buckets.
use vstd::prelude::*;
use vstd::utf8::is_ascii_chars;

use crate::catalogue::{
    ascending, is_served, key, lemma_filter_empty, lemma_filter_push, lemma_served_sound,
    lemma_without, other_than, served, without,
};
use crate::laws::catalogue::{
    asked_for, law_chains_are_those_that_serve, law_narrowing, lemma_trimmed_ascii,
};
use crate::laws::chains::row_on;
use crate::model::{
    all_normalized, among, finds, is_on, not_among, offered_on, page, row_tokens, rows_of_chains,
    ListView,
};
use crate::offered::{pinned_tokens, pins};
use crate::text::{ascii_lower, normalized, occurs_in, trimmed, unicode_lowercase};
use crate::token::{RowView, TokenSource, TokenView};

verus! {

/// `at` lists, in ascending order, the places below `n` that are kept.
pub open spec fn chosen(at: Seq<int>, n: nat, keep: spec_fn(int) -> bool) -> bool {
    &&& forall|i: int, j: int| 0 <= i < j < at.len() ==> at[i] < at[j]
    &&& forall|x: int| #[trigger] at.contains(x) <==> 0 <= x < n && keep(x)
}

/// One more place is looked at.
proof fn lemma_chosen_push(at: Seq<int>, n: nat, keep: spec_fn(int) -> bool) -> (r: Seq<int>)
    requires
        chosen(at, n, keep),
    ensures
        chosen(r, n + 1, keep),
        r == if keep(n as int) {
            at.push(n as int)
        } else {
            at
        },
{
    let r = if keep(n as int) {
        at.push(n as int)
    } else {
        at
    };
    assert forall|i: int| 0 <= i < at.len() implies at[i] < n by {
        assert(at.contains(at[i]));
    }
    assert forall|x: int| #[trigger] r.contains(x) <==> 0 <= x < n + 1 && keep(x) by {
        if at.contains(x) {
            assert(r[at.index_of(x)] == x);
        }
        if r.contains(x) && x != n {
            assert(at[r.index_of(x)] == x);
        }
        if x == n && keep(x) {
            assert(r[at.len() as int] == x);
        }
    }
    r
}

/// The places that a filter keeps.
pub proof fn lemma_filter_places<A>(s: Seq<A>, p: spec_fn(A) -> bool) -> (at: Seq<int>)
    ensures
        chosen(at, s.len(), |i: int| p(s[i])),
        s.filter(p).len() == at.len(),
        forall|k: int| 0 <= k < at.len() ==> #[trigger] s.filter(p)[k] == s[at[k]],
    decreases s.len(),
{
    if s.len() == 0 {
        assert(s =~= Seq::empty());
        lemma_filter_empty(p);
        Seq::empty()
    } else {
        let prev = s.drop_last();
        let before = lemma_filter_places(prev, p);
        assert(prev.push(s.last()) =~= s);
        lemma_filter_push(prev, s.last(), p);
        let keep = |i: int| p(s[i]);
        assert(chosen(before, prev.len(), keep)) by {
            assert forall|x: int| #[trigger] before.contains(x) <==> 0 <= x < prev.len() && keep(
                x,
            ) by {
                if 0 <= x < prev.len() {
                    assert(prev[x] == s[x]);
                }
            }
        }
        let at = lemma_chosen_push(before, prev.len(), keep);
        assert forall|k: int| 0 <= k < at.len() implies #[trigger] s.filter(p)[k] == s[at[k]] by {
            if k < before.len() {
                assert(before.contains(before[k]));
                assert(prev.filter(p)[k] == prev[before[k]]);
            }
        }
        at
    }
}

/// The places of the rows that are served.
proof fn lemma_served_places(all: Seq<RowView>, c: u64) -> (at: Seq<int>)
    ensures
        chosen(at, all.len(), |i: int| is_served(all, i, c, None)),
        served(all, c, None).len() == at.len(),
        forall|k: int| 0 <= k < at.len() ==> #[trigger] served(all, c, None)[k] == all[at[k]],
    decreases all.len(),
{
    if all.len() == 0 {
        Seq::empty()
    } else {
        let prev = all.drop_last();
        let before = lemma_served_places(prev, c);
        let keep = |i: int| is_served(all, i, c, None);
        assert(chosen(before, prev.len(), keep)) by {
            assert forall|x: int| #[trigger] before.contains(x) <==> 0 <= x < prev.len() && keep(
                x,
            ) by {
                if 0 <= x < prev.len() {
                    assert(prev[x] == all[x]);
                    assert forall|j: int| 0 <= j < x implies #[trigger] prev[j] == all[j] by {}
                    if is_served(all, x, c, None) {
                        assert forall|j: int| 0 <= j < x implies key(#[trigger] prev[j].token)
                            != key(prev[x].token) by {
                            assert(key(all[j].token) != key(all[x].token));
                        }
                    }
                    if is_served(prev, x, c, None) {
                        assert forall|j: int| 0 <= j < x implies key(#[trigger] all[j].token)
                            != key(all[x].token) by {
                            assert(key(prev[j].token) != key(prev[x].token));
                        }
                    }
                }
            }
        }
        let at = lemma_chosen_push(before, prev.len(), keep);
        assert forall|k: int| 0 <= k < at.len() implies #[trigger] served(all, c, None)[k]
            == all[at[k]] by {
            if k < before.len() {
                assert(before.contains(before[k]));
                assert(served(prev, c, None)[k] == prev[before[k]]);
            }
        }
        at
    }
}

/// The tokens in use, in order of precedence: the user's own, the downloaded ones, and the shipped
/// ones where the configuration asks for them.
pub open spec fn in_use(v: ListView) -> Seq<TokenView> {
    v.custom + v.downloaded + if v.config.use_embedded_list {
        v.shipped
    } else {
        Seq::empty()
    }
}

/// A chain serves, in order of precedence, the tokens in use that are on it and whose address no
/// token before them has on that chain. Each row names the bucket that its token stands in.
pub proof fn law_rows_are_the_first_of_each_address(v: ListView, c: u64) -> (at: Seq<int>)
    ensures
        chosen(
            at,
            in_use(v).len(),
            |i: int|
                in_use(v)[i].chain_id == c && forall|j: int|
                    0 <= j < i && (#[trigger] in_use(v)[j]).chain_id == c ==> normalized(
                        in_use(v)[j].address,
                    ) != normalized(in_use(v)[i].address),
        ),
        v.rows(c).len() == at.len(),
        forall|k: int| 0 <= k < at.len() ==> (#[trigger] v.rows(c)[k]).token == in_use(v)[at[k]],
        forall|k: int|
            0 <= k < at.len() ==> (#[trigger] v.rows(c)[k]).source == if at[k] < v.custom.len() {
                TokenSource::Custom
            } else if at[k] < v.custom.len() + v.downloaded.len() {
                TokenSource::Downloaded
            } else {
                TokenSource::Embedded
            },
{
    let all = v.catalogue();
    let tokens = in_use(v);
    let at = lemma_served_places(all, c);
    assert(all.len() == tokens.len());
    assert forall|i: int| 0 <= i < all.len() implies (#[trigger] all[i]).token == tokens[i] by {}
    let keep = |i: int|
        tokens[i].chain_id == c && forall|j: int|
            0 <= j < i && (#[trigger] tokens[j]).chain_id == c ==> normalized(tokens[j].address)
                != normalized(tokens[i].address);
    assert forall|x: int| #[trigger] at.contains(x) <==> 0 <= x < tokens.len() && keep(x) by {
        if 0 <= x < all.len() {
            assert(all[x].token == tokens[x]);
            if is_served(all, x, c, None) {
                assert forall|j: int| 0 <= j < x && (#[trigger] tokens[j]).chain_id == c implies
                    normalized(tokens[j].address) != normalized(tokens[x].address) by {
                    assert(key(all[j].token) != key(all[x].token));
                }
            }
            if keep(x) {
                assert forall|j: int| 0 <= j < x implies key(#[trigger] all[j].token) != key(
                    all[x].token,
                ) by {
                    assert(all[j].token == tokens[j]);
                }
            }
        }
    }
    assert forall|k: int| 0 <= k < at.len() implies 0 <= #[trigger] at[k] < all.len() by {
        assert(at.contains(at[k]));
    }
    at
}

/// Addresses in ASCII are the same address exactly when they differ in nothing but the case of
/// their letters and the white space around them.
pub proof fn law_addresses_are_told_apart(a: Seq<char>, b: Seq<char>)
    requires
        is_ascii_chars(a),
        is_ascii_chars(b),
    ensures
        normalized(a) == normalized(b) <==> ascii_lower(trimmed(a)) == ascii_lower(trimmed(b)),
{
    lemma_trimmed_ascii(a);
    lemma_trimmed_ascii(b);
}

/// An address is compared in lower case and without the white space around it, in any script.
pub proof fn law_addresses_are_trimmed_and_lowered(a: Seq<char>)
    ensures
        is_ascii_chars(trimmed(a)) ==> normalized(a) == ascii_lower(trimmed(a)),
        !is_ascii_chars(trimmed(a)) ==> normalized(a) == unicode_lowercase(trimmed(a)),
{
}

/// Asked for some addresses, a chain answers with those of its rows that have one of them, every
/// one of them and in the same order: a row is left out only where its address was not named.
pub proof fn law_every_named_address_is_answered(
    v: ListView,
    c: u64,
    addresses: Seq<Seq<char>>,
) -> (at: Seq<int>)
    ensures
        chosen(
            at,
            v.rows(c).len(),
            |k: int|
                exists|i: int|
                    0 <= i < addresses.len() && normalized(#[trigger] addresses[i]) == normalized(
                        v.rows(c)[k].token.address,
                    ),
        ),
        v.rows_at(c, addresses).len() == at.len(),
        forall|k: int| 0 <= k < at.len() ==> #[trigger] v.rows_at(c, addresses)[k] == v.rows(
            c,
        )[at[k]],
        forall|row: RowView| #[trigger]
            v.rows_at(c, addresses).contains(row) <==> v.rows(c).contains(row) && exists|i: int|
                0 <= i < addresses.len() && normalized(#[trigger] addresses[i]) == normalized(
                    row.token.address,
                ),
{
    law_narrowing(v, c, addresses);
    let rows = v.rows(c);
    let some = v.rows_at(c, addresses);
    let at = lemma_filter_places(rows, asked_for(addresses));
    assert forall|row: RowView| #[trigger] asked_for(addresses)(row) <==> exists|i: int|
        0 <= i < addresses.len() && normalized(#[trigger] addresses[i]) == normalized(
            row.token.address,
        ) by {
        let want = all_normalized(addresses);
        let a = normalized(row.token.address);
        if want.contains(a) {
            let i = want.index_of(a);
            assert(normalized(addresses[i]) == a);
        }
        if exists|i: int| 0 <= i < addresses.len() && normalized(#[trigger] addresses[i]) == a {
            let i = choose|i: int|
                0 <= i < addresses.len() && normalized(#[trigger] addresses[i]) == a;
            assert(want[i] == a);
        }
    }
    assert forall|row: RowView| #[trigger] some.contains(row) <==> rows.contains(row) && asked_for(
        addresses,
    )(row) by {
        if some.contains(row) {
            let k = some.index_of(row);
            assert(at.contains(at[k]));
            assert(some[k] == rows[at[k]]);
        }
        if rows.contains(row) && asked_for(addresses)(row) {
            let x = rows.index_of(row);
            assert(at.contains(x));
            let k = at.index_of(x);
            assert(some[k] == rows[at[k]]);
        }
    }
    at
}

/// The rows of all chains are those of each chain, chain after chain in ascending order.
pub proof fn law_all_rows_chain_by_chain(v: ListView, c: u64)
    ensures
        v.all_rows().filter(row_on(c)) == v.rows(c),
        forall|i: int, j: int|
            0 <= i < j < v.all_rows().len() ==> (#[trigger] v.all_rows()[i]).token.chain_id
                <= (#[trigger] v.all_rows()[j]).token.chain_id,
{
    law_chains_are_those_that_serve(v, c);
    lemma_chain_by_chain(v.catalogue(), v.chains(), c);
    if !v.chains().contains(c) {
        assert(v.rows(c) =~= Seq::empty());
    }
}

proof fn lemma_rows_on(all: Seq<RowView>, d: u64)
    ensures
        forall|k: int|
            0 <= k < served(all, d, None).len() ==> (#[trigger] served(
                all,
                d,
                None,
            )[k]).token.chain_id == d,
{
    lemma_served_sound(all, d, None);
}

proof fn lemma_filter_whole_or_none(rows: Seq<RowView>, d: u64, c: u64)
    requires
        forall|k: int| 0 <= k < rows.len() ==> (#[trigger] rows[k]).token.chain_id == d,
    ensures
        rows.filter(row_on(c)) == if c == d {
            rows
        } else {
            Seq::empty()
        },
    decreases rows.len(),
{
    if rows.len() == 0 {
        assert(rows =~= Seq::empty());
        lemma_filter_empty(row_on(c));
    } else {
        let prev = rows.drop_last();
        lemma_filter_whole_or_none(prev, d, c);
        assert(prev.push(rows[rows.len() - 1]) =~= rows);
        lemma_filter_push(prev, rows[rows.len() - 1], row_on(c));
    }
}

proof fn lemma_chain_by_chain(all: Seq<RowView>, chains: Seq<u64>, c: u64)
    requires
        ascending(chains),
    ensures
        rows_of_chains(all, chains).filter(row_on(c)) == if chains.contains(c) {
            served(all, c, None)
        } else {
            Seq::empty()
        },
        forall|i: int, j: int|
            0 <= i < j < rows_of_chains(all, chains).len() ==> (#[trigger] rows_of_chains(
                all,
                chains,
            )[i]).token.chain_id <= (#[trigger] rows_of_chains(all, chains)[j]).token.chain_id,
        forall|i: int|
            0 <= i < rows_of_chains(all, chains).len() ==> chains.contains(
                (#[trigger] rows_of_chains(all, chains)[i]).token.chain_id,
            ),
    decreases chains.len(),
{
    let r = rows_of_chains(all, chains);
    if chains.len() == 0 {
        lemma_filter_empty(row_on(c));
    } else {
        let prev = chains.drop_last();
        let d = chains[chains.len() - 1];
        let p = rows_of_chains(all, prev);
        let more = served(all, d, None);
        lemma_chain_by_chain(all, prev, c);
        lemma_rows_on(all, d);
        lemma_filter_whole_or_none(more, d, c);
        Seq::filter_distributes_over_add(p, more, row_on(c));
        assert(chains.contains(d));
        assert forall|x: u64| prev.contains(x) implies x < d && chains.contains(x) by {
            assert(chains[prev.index_of(x)] == x);
        }
        if chains.contains(c) && c != d {
            assert(prev[chains.index_of(c)] == c);
        }
        assert(served(all, c, None) + Seq::<RowView>::empty() =~= served(all, c, None));
        assert(Seq::<RowView>::empty() + more =~= more);
        assert forall|i: int| 0 <= i < r.len() implies chains.contains(
            (#[trigger] r[i]).token.chain_id,
        ) by {
            if i < p.len() {
                assert(r[i] == p[i]);
            } else {
                assert(r[i] == more[i - p.len()]);
            }
        }
        assert forall|i: int, j: int| 0 <= i < j < r.len() implies (
        #[trigger] r[i]).token.chain_id <= (#[trigger] r[j]).token.chain_id by {
            if j < p.len() {
                assert(r[i] == p[i] && r[j] == p[j]);
            } else {
                assert(r[j] == more[j - p.len()]);
                if i < p.len() {
                    assert(r[i] == p[i]);
                    assert(prev.contains(p[i].token.chain_id));
                } else {
                    assert(r[i] == more[i - p.len()]);
                }
            }
        }
    }
}

/// Adding one of the user's own tokens that is there to the letter changes nothing. Any other one is
/// put at the end, the tokens of its chain and address go, and all others keep their order.
pub proof fn law_added_token_is_the_last(v: ListView, t: TokenView) -> (at: Seq<int>)
    ensures
        v.custom.contains(t) ==> v.custom_added(t).custom == v.custom,
        !v.custom.contains(t) ==> {
            let after = v.custom_added(t).custom;
            &&& chosen(
                at,
                v.custom.len(),
                |i: int|
                    v.custom[i].chain_id != t.chain_id || normalized(v.custom[i].address)
                        != normalized(t.address),
            )
            &&& after.len() == at.len() + 1
            &&& after.last() == t
            &&& forall|k: int| 0 <= k < at.len() ==> #[trigger] after[k] == v.custom[at[k]]
        },
{
    let at = lemma_filter_places(v.custom, other_than(key(t)));
    let rest = without(v.custom, key(t));
    if !v.custom.contains(t) {
        let after = v.custom_added(t).custom;
        assert(after == rest.push(t));
        assert forall|k: int| 0 <= k < at.len() implies #[trigger] after[k] == v.custom[at[k]] by {
            assert(after[k] == rest[k]);
        }
    }
    at
}

/// Removing drops the user's tokens of that chain and address and keeps all others in their order.
pub proof fn law_removing_keeps_the_others(v: ListView, c: u64, address: Seq<char>) -> (at: Seq<int>)
    ensures
        chosen(
            at,
            v.custom.len(),
            |i: int|
                v.custom[i].chain_id != c || normalized(v.custom[i].address) != normalized(address),
        ),
        v.custom_removed(c, address).custom.len() == at.len(),
        forall|k: int|
            0 <= k < at.len() ==> #[trigger] v.custom_removed(c, address).custom[k]
                == v.custom[at[k]],
{
    let k = (c, normalized(address));
    lemma_without(v.custom, k);
    lemma_filter_places(v.custom, other_than(k))
}

/// The enabled tokens of a chain are its snapshots, in the order in which they are kept. Each says
/// that it is resolved exactly when a token in use is on that chain and has its address.
pub proof fn law_enabled_rows_are_the_snapshots(v: ListView, c: u64) -> (at: Seq<int>)
    ensures
        chosen(at, v.enabled.len(), |i: int| v.enabled[i].chain_id == c),
        v.enabled_rows(c).len() == at.len(),
        forall|k: int|
            0 <= k < at.len() ==> (#[trigger] v.enabled_rows(c)[k]).token == v.enabled[at[k]],
        forall|k: int|
            0 <= k < at.len() ==> ((#[trigger] v.enabled_rows(c)[k]).resolved <==> exists|i: int|
                0 <= i < in_use(v).len() && (#[trigger] in_use(v)[i]).chain_id == c && normalized(
                    in_use(v)[i].address,
                ) == normalized(v.enabled_rows(c)[k].token.address)),
{
    let at = lemma_filter_places(v.enabled, is_on(c));
    let out = v.enabled_rows(c);
    let rows = v.rows(c);
    let tokens = in_use(v);
    let places = law_rows_are_the_first_of_each_address(v, c);
    assert forall|k: int| 0 <= k < at.len() implies (#[trigger] out[k]).token == v.enabled[at[k]]
        by {
        assert(v.enabled.filter(is_on(c))[k] == v.enabled[at[k]]);
    }
    assert forall|k: int| 0 <= k < at.len() implies ((#[trigger] out[k]).resolved <==> exists|
        i: int,
    |
        0 <= i < tokens.len() && (#[trigger] tokens[i]).chain_id == c && normalized(
            tokens[i].address,
        ) == normalized(out[k].token.address)) by {
        let a = normalized(out[k].token.address);
        if out[k].resolved {
            let n = choose|n: int|
                0 <= n < rows.len() && normalized(#[trigger] rows[n].token.address) == a;
            assert(places.contains(places[n]));
            assert(rows[n].token == tokens[places[n]]);
            assert(tokens[places[n]].chain_id == c);
        }
        if exists|i: int|
            0 <= i < tokens.len() && (#[trigger] tokens[i]).chain_id == c && normalized(
                tokens[i].address,
            ) == a {
            let i = choose|i: int|
                0 <= i < tokens.len() && (#[trigger] tokens[i]).chain_id == c && normalized(
                    tokens[i].address,
                ) == a;
            let f = lemma_first_at(tokens, c, a, i);
            assert(places.contains(f));
            let n = places.index_of(f);
            assert(rows[n].token == tokens[f]);
            assert(normalized(rows[n].token.address) == a);
        }
    }
    at
}

/// Where there is a token on a chain with an address, there is a first one.
proof fn lemma_first_at(tokens: Seq<TokenView>, c: u64, a: Seq<char>, i: int) -> (f: int)
    requires
        0 <= i < tokens.len(),
        tokens[i].chain_id == c,
        normalized(tokens[i].address) == a,
    ensures
        0 <= f <= i,
        tokens[f].chain_id == c,
        normalized(tokens[f].address) == a,
        forall|j: int|
            0 <= j < f && (#[trigger] tokens[j]).chain_id == c ==> normalized(tokens[j].address)
                != a,
    decreases i,
{
    if exists|j: int|
        0 <= j < i && (#[trigger] tokens[j]).chain_id == c && normalized(tokens[j].address) == a {
        let j = choose|j: int|
            0 <= j < i && (#[trigger] tokens[j]).chain_id == c && normalized(tokens[j].address)
                == a;
        lemma_first_at(tokens, c, a, j)
    } else {
        i
    }
}

/// After the pinned tokens a chain offers its snapshots, but those of a pinned address, in the order
/// in which they are kept.
pub proof fn law_offered_snapshots_keep_their_order(v: ListView, c: u64) -> (at: Seq<int>)
    ensures
        chosen(
            at,
            v.enabled.len(),
            |i: int| v.enabled[i].chain_id == c && !pins(c, v.enabled[i].address),
        ),
        v.offered(c).len() == pinned_tokens(c).len() + at.len(),
        forall|k: int|
            0 <= k < pinned_tokens(c).len() ==> #[trigger] v.offered(c)[k] == pinned_tokens(c)[k],
        forall|k: int|
            0 <= k < at.len() ==> v.offered(c)[pinned_tokens(c).len() + k] == v.enabled[#[trigger] at[k]],
{
    let at = lemma_filter_places(v.enabled, offered_on(c));
    let rest = v.enabled.filter(offered_on(c));
    assert forall|k: int| 0 <= k < at.len() implies v.offered(c)[pinned_tokens(c).len() + k]
        == v.enabled[#[trigger] at[k]] by {
        assert(rest[k] == v.enabled[at[k]]);
    }
    at
}

/// What is available on a chain is what is offered, and after it the tokens of those rows, in order,
/// whose address none of the offered tokens has.
pub proof fn law_available_is_offered_then_the_rest(v: ListView, c: u64) -> (at: Seq<int>)
    ensures
        chosen(
            at,
            v.rows(c).len(),
            |i: int|
                forall|j: int|
                    0 <= j < v.offered(c).len() ==> normalized((#[trigger] v.offered(c)[j]).address)
                        != normalized(v.rows(c)[i].token.address),
        ),
        v.available(c).len() == v.offered(c).len() + at.len(),
        forall|k: int|
            0 <= k < v.offered(c).len() ==> #[trigger] v.available(c)[k] == v.offered(c)[k],
        forall|k: int|
            0 <= k < at.len() ==> v.available(c)[v.offered(c).len() + k] == v.rows(
                c,
            )[#[trigger] at[k]].token,
{
    let offered = v.offered(c);
    let rows = v.rows(c);
    let tokens = row_tokens(rows);
    let p = not_among(offered);
    let at = lemma_filter_places(tokens, p);
    let keep = |i: int|
        forall|j: int|
            0 <= j < offered.len() ==> normalized((#[trigger] offered[j]).address) != normalized(
                rows[i].token.address,
            );
    assert forall|x: int| #[trigger] at.contains(x) <==> 0 <= x < rows.len() && keep(x) by {
        if 0 <= x < rows.len() {
            let a = normalized(tokens[x].address);
            if among(offered, a) {
                let j = choose|j: int|
                    0 <= j < offered.len() && normalized(#[trigger] offered[j].address) == a;
                assert(normalized(offered[j].address) == a);
            }
            if !keep(x) {
                let j = choose|j: int|
                    0 <= j < offered.len() && normalized((#[trigger] offered[j]).address) == a;
                assert(normalized(offered[j].address) == a);
                assert(among(offered, a));
            }
        }
    }
    assert forall|k: int| 0 <= k < at.len() implies v.available(c)[offered.len() + k]
        == rows[#[trigger] at[k]].token by {
        assert(at.contains(at[k]));
        assert(tokens.filter(p)[k] == tokens[at[k]]);
    }
    at
}

/// A text holds another: it is that text with something before it and something behind it.
pub open spec fn holds(s: Seq<char>, part: Seq<char>) -> bool {
    exists|before: Seq<char>, behind: Seq<char>| s == #[trigger] (before + part + behind)
}

proof fn lemma_holds(s: Seq<char>, part: Seq<char>)
    ensures
        occurs_in(part, s) <==> holds(s, part),
{
    if occurs_in(part, s) {
        let i = choose|i: int|
            0 <= i && i + part.len() <= s.len() && #[trigger] s.subrange(i, i + part.len()) == part;
        let before = s.take(i);
        let behind = s.skip(i + part.len());
        assert(s =~= before + part + behind) by {
            assert forall|j: int| i <= j < i + part.len() implies #[trigger] s[j] == part[j - i] by {
                assert(s.subrange(i, i + part.len())[j - i] == s[j]);
            }
        }
        assert(s == before + part + behind);
    }
    if holds(s, part) {
        let (before, behind) = choose|before: Seq<char>, behind: Seq<char>|
            s == #[trigger] (before + part + behind);
        let i = before.len() as int;
        assert(s.subrange(i, i + part.len()) =~= part);
    }
}

/// A query finds, in order, every available token whose symbol, name or address holds it, whatever
/// the case, and no other.
pub proof fn law_a_query_finds_what_holds_it(v: ListView, c: u64, query: Seq<char>) -> (at: Seq<int>)
    ensures
        chosen(
            at,
            v.available(c).len(),
            |i: int|
                {
                    let t = v.available(c)[i];
                    let q = normalized(query);
                    ||| holds(normalized(t.symbol), q)
                    ||| holds(normalized(t.name), q)
                    ||| holds(normalized(t.address), q)
                },
        ),
        v.found(c, query).len() == at.len(),
        forall|k: int| 0 <= k < at.len() ==> #[trigger] v.found(c, query)[k] == v.available(c)[at[k]],
{
    let q = normalized(query);
    let all = v.available(c);
    let at = lemma_filter_places(all, finds(query));
    let keep = |i: int|
        {
            let t = all[i];
            ||| holds(normalized(t.symbol), q)
            ||| holds(normalized(t.name), q)
            ||| holds(normalized(t.address), q)
        };
    assert forall|x: int| #[trigger] at.contains(x) <==> 0 <= x < all.len() && keep(x) by {
        lemma_holds(normalized(all[x].symbol), q);
        lemma_holds(normalized(all[x].name), q);
        lemma_holds(normalized(all[x].address), q);
    }
    at
}

/// A page is a window on the tokens: it begins at the offset, ends with the tokens or at the limit,
/// and leaves nothing out in between.
pub proof fn law_a_page_is_a_window(tokens: Seq<TokenView>, offset: nat, limit: Option<nat>)
    ensures
        ({
            let p = page(tokens, offset, limit);
            let left = if offset < tokens.len() {
                tokens.len() - offset
            } else {
                0
            };
            &&& p.len() == match limit {
                Some(n) if n < left => n as int,
                _ => left,
            }
            &&& forall|i: int| 0 <= i < p.len() ==> #[trigger] p[i] == tokens[offset + i]
        }),
{
}

} // verus!
