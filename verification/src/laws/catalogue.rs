//! What the catalogue serves: precedence, one row for each address, and nothing left out.
use vstd::prelude::*;
use vstd::utf8::is_ascii_chars;

use crate::catalogue::{
    ascending, has_address, has_key, is_first, is_served, key, lemma_chain_ids, lemma_filter_empty,
    lemma_filter_push, lemma_served_complete, lemma_served_sound, on_chain, served,
};
use crate::model::{all_normalized, rows_of_chains, ListView};
use crate::text::{ascii_lower, normalized, trim_back, trim_front, trimmed};
use crate::token::{RowView, TokenSource, TokenView};

verus! {

/// The first bucket, in order of precedence, that has a token of key `k`.
pub open spec fn first_bucket(v: ListView, k: (u64, Seq<char>)) -> Option<TokenSource> {
    if has_key(v.custom, k) {
        Some(TokenSource::Custom)
    } else if has_key(v.downloaded, k) {
        Some(TokenSource::Downloaded)
    } else if has_key(v.embedded(), k) {
        Some(TokenSource::Embedded)
    } else {
        None
    }
}

/// The tokens of a bucket.
pub open spec fn bucket(v: ListView, source: TokenSource) -> Seq<TokenView> {
    match source {
        TokenSource::Custom => v.custom,
        TokenSource::Downloaded => v.downloaded,
        TokenSource::Embedded => v.embedded(),
    }
}

/// Where the `i`-th row of the catalogue comes from.
proof fn lemma_catalogue_at(v: ListView, i: int)
    requires
        0 <= i < v.catalogue().len(),
    ensures
        v.catalogue()[i].token == v.catalogue_tokens()[i],
        v.catalogue().len() == v.catalogue_tokens().len(),
        v.catalogue()[i].source == (if i < v.custom.len() {
            TokenSource::Custom
        } else if i < v.custom.len() + v.downloaded.len() {
            TokenSource::Downloaded
        } else {
            TokenSource::Embedded
        }),
        bucket(v, v.catalogue()[i].source).contains(v.catalogue()[i].token),
        has_key(bucket(v, v.catalogue()[i].source), key(v.catalogue()[i].token)),
{
    let a = v.custom.len() as int;
    let b = v.downloaded.len() as int;
    let t = v.catalogue()[i].token;
    if i < a {
        assert(v.custom[i] == t);
    } else if i < a + b {
        assert(v.downloaded[i - a] == t);
    } else {
        assert(v.embedded()[i - a - b] == t);
    }
}

/// A key that a bucket has is the key of one of that bucket's rows in the catalogue.
proof fn lemma_bucket_in_catalogue(v: ListView, source: TokenSource, k: (u64, Seq<char>)) -> (i: int)
    requires
        has_key(bucket(v, source), k),
    ensures
        0 <= i < v.catalogue().len(),
        key(v.catalogue()[i].token) == k,
        v.catalogue()[i].source == source,
{
    let tokens = bucket(v, source);
    let j = choose|j: int| 0 <= j < tokens.len() && key(#[trigger] tokens[j]) == k;
    match source {
        TokenSource::Custom => {
            assert(v.catalogue()[j].token == tokens[j]);
            j
        },
        TokenSource::Downloaded => {
            let i = j + v.custom.len();
            assert(v.catalogue()[i].token == tokens[j]);
            i
        },
        TokenSource::Embedded => {
            let i = j + v.custom.len() + v.downloaded.len();
            assert(v.catalogue()[i].token == tokens[j]);
            i
        },
    }
}

/// Each row that is served is of the chain asked for, comes from the first bucket that knows its
/// address, and is a token of that bucket: the user's own entry wins, then a downloaded one, then
/// the shipped one.
pub proof fn law_precedence(v: ListView, chain_id: u64, n: int)
    requires
        0 <= n < v.rows(chain_id).len(),
    ensures
        v.rows(chain_id)[n].token.chain_id == chain_id,
        first_bucket(v, key(v.rows(chain_id)[n].token)) == Some(v.rows(chain_id)[n].source),
        bucket(v, v.rows(chain_id)[n].source).contains(v.rows(chain_id)[n].token),
{
    let all = v.catalogue();
    let row = v.rows(chain_id)[n];
    lemma_served_sound(all, chain_id, None);
    let i = choose|i: int|
        0 <= i < all.len() && #[trigger] all[i] == row && is_served(all, i, chain_id, None);
    lemma_catalogue_at(v, i);
    let k = key(row.token);
    let first = first_bucket(v, k)->0;
    if first != row.source {
        let j = lemma_bucket_in_catalogue(v, first, k);
        lemma_catalogue_at(v, j);
        assert(j < i);
        assert(key(all[j].token) != key(all[i].token));
    }
}

/// No two rows served for a chain have the same address.
pub proof fn law_one_row_for_each_address(v: ListView, chain_id: u64, m: int, n: int)
    requires
        0 <= m < n < v.rows(chain_id).len(),
    ensures
        normalized(v.rows(chain_id)[m].token.address) != normalized(
            v.rows(chain_id)[n].token.address,
        ),
{
    lemma_distinct(v.catalogue(), chain_id, m, n);
}

proof fn lemma_distinct(all: Seq<RowView>, chain_id: u64, m: int, n: int)
    requires
        0 <= m < n < served(all, chain_id, None).len(),
    ensures
        normalized(served(all, chain_id, None)[m].token.address) != normalized(
            served(all, chain_id, None)[n].token.address,
        ),
    decreases all.len(),
{
    let rows = served(all, chain_id, None);
    let prev = all.drop_last();
    let before = served(prev, chain_id, None);
    if n < before.len() {
        lemma_distinct(prev, chain_id, m, n);
    } else {
        lemma_served_sound(prev, chain_id, None);
        let i = choose|i: int|
            0 <= i < prev.len() && #[trigger] prev[i] == before[m] && is_served(
                prev,
                i,
                chain_id,
                None,
            );
        assert(rows[n] == all.last());
        assert(is_first(all, all.len() - 1));
        assert(all[i] == prev[i]);
        assert(key(all[i].token) != key(all.last().token));
    }
}

/// A chain serves a row for an address exactly when some bucket in use has a token there.
pub proof fn law_a_row_for_every_token(v: ListView, chain_id: u64, address: Seq<char>)
    ensures
        has_address(v.rows(chain_id), address) <==> first_bucket(v, (chain_id, address)) is Some,
{
    let all = v.catalogue();
    let rows = v.rows(chain_id);
    if has_address(rows, address) {
        let n = choose|n: int|
            0 <= n < rows.len() && normalized(#[trigger] rows[n].token.address) == address;
        law_precedence(v, chain_id, n);
    }
    if first_bucket(v, (chain_id, address)) is Some {
        let i = lemma_bucket_in_catalogue(
            v,
            first_bucket(v, (chain_id, address))->0,
            (chain_id, address),
        );
        lemma_served_complete(all, chain_id, None, i);
    }
}

/// A row is among those that are asked for.
pub open spec fn asked_for(addresses: Seq<Seq<char>>) -> spec_fn(RowView) -> bool {
    |r: RowView| all_normalized(addresses).contains(normalized(r.token.address))
}

/// Asking for some addresses narrows the reply and changes nothing else: the rows are those that
/// the chain serves anyway, without the rest.
pub proof fn law_narrowing(v: ListView, chain_id: u64, addresses: Seq<Seq<char>>)
    ensures
        v.rows_at(chain_id, addresses) == v.rows(chain_id).filter(asked_for(addresses)),
{
    lemma_narrowing(v.catalogue(), chain_id, addresses);
}

proof fn lemma_narrowing(all: Seq<RowView>, chain_id: u64, addresses: Seq<Seq<char>>)
    ensures
        served(all, chain_id, Some(all_normalized(addresses))) == served(
            all,
            chain_id,
            None,
        ).filter(asked_for(addresses)),
    decreases all.len(),
{
    let p = asked_for(addresses);
    if all.len() == 0 {
        lemma_filter_empty(p);
    } else {
        lemma_narrowing(all.drop_last(), chain_id, addresses);
        lemma_filter_push(served(all.drop_last(), chain_id, None), all.last(), p);
    }
}

/// White space is stripped of an ASCII text without its becoming any other kind of text.
pub proof fn lemma_trimmed_ascii(s: Seq<char>)
    requires
        is_ascii_chars(s),
    ensures
        is_ascii_chars(trimmed(s)),
{
    lemma_trim_front_ascii(s);
    lemma_trim_back_ascii(trim_front(s));
}

proof fn lemma_trim_front_ascii(s: Seq<char>)
    requires
        is_ascii_chars(s),
    ensures
        is_ascii_chars(trim_front(s)),
    decreases s.len(),
{
    if s.len() > 0 {
        assert(is_ascii_chars(s.drop_first()));
        lemma_trim_front_ascii(s.drop_first());
    }
}

proof fn lemma_trim_back_ascii(s: Seq<char>)
    requires
        is_ascii_chars(s),
    ensures
        is_ascii_chars(trim_back(s)),
    decreases s.len(),
{
    if s.len() > 0 {
        assert(is_ascii_chars(s.drop_last()));
        lemma_trim_back_ascii(s.drop_last());
    }
}

/// The case of an address does not matter, nor does the space around it: two ASCII addresses that
/// differ in nothing else are answered alike.
pub proof fn law_case_does_not_matter(v: ListView, chain_id: u64, a: Seq<char>, b: Seq<char>)
    requires
        is_ascii_chars(a),
        is_ascii_chars(b),
        ascii_lower(trimmed(a)) == ascii_lower(trimmed(b)),
    ensures
        v.rows_at(chain_id, seq![a]) == v.rows_at(chain_id, seq![b]),
        v.custom_removed(chain_id, a) == v.custom_removed(chain_id, b),
        v.toggled(chain_id, a, true) == v.toggled(chain_id, b, true),
        v.toggled(chain_id, a, false) == v.toggled(chain_id, b, false),
        v.toggle_reply(chain_id, a, true) == v.toggle_reply(chain_id, b, true),
        v.toggle_reply(chain_id, a, false) == v.toggle_reply(chain_id, b, false),
{
    lemma_trimmed_ascii(a);
    lemma_trimmed_ascii(b);
    assert(normalized(a) == normalized(b));
    assert(all_normalized(seq![a]) =~= all_normalized(seq![b]));
}

/// The chains go up without repeating, and a chain is one of them exactly when it serves a row.
pub proof fn law_chains_are_those_that_serve(v: ListView, c: u64)
    ensures
        ascending(v.chains()),
        v.chains().contains(c) <==> on_chain(v.catalogue_tokens(), c),
        v.chains().contains(c) <==> v.rows(c).len() > 0,
{
    let tokens = v.catalogue_tokens();
    lemma_chain_ids(tokens);
    if on_chain(tokens, c) {
        let i = choose|i: int| 0 <= i < tokens.len() && (#[trigger] tokens[i]).chain_id == c;
        assert(v.catalogue().len() == tokens.len());
        lemma_catalogue_at(v, i);
        lemma_served_complete(v.catalogue(), c, None, i);
    }
    if v.rows(c).len() > 0 {
        let all = v.catalogue();
        lemma_served_sound(all, c, None);
        let i = choose|i: int|
            0 <= i < all.len() && #[trigger] all[i] == v.rows(c)[0] && is_served(all, i, c, None);
        lemma_catalogue_at(v, i);
        assert(tokens[i].chain_id == c);
    }
}

/// What is served of all chains is what each chain serves: a row is there exactly when its own
/// chain serves it.
pub proof fn law_all_rows_are_those_of_the_chains(v: ListView, row: RowView)
    ensures
        v.all_rows().contains(row) <==> v.rows(row.token.chain_id).contains(row),
{
    let all = v.catalogue();
    let c = row.token.chain_id;
    lemma_rows_of_chains(all, v.chains(), row);
    if v.rows(c).contains(row) {
        law_chains_are_those_that_serve(v, c);
        assert(v.rows(c).len() > 0);
    }
    if v.all_rows().contains(row) {
        let d = choose|d: u64|
            v.chains().contains(d) && #[trigger] served(all, d, None).contains(row);
        let n = v.rows(d).index_of(row);
        law_precedence(v, d, n);
    }
}

proof fn lemma_rows_of_chains(all: Seq<RowView>, chains: Seq<u64>, row: RowView)
    ensures
        rows_of_chains(all, chains).contains(row) <==> exists|c: u64|
            chains.contains(c) && #[trigger] served(all, c, None).contains(row),
    decreases chains.len(),
{
    let r = rows_of_chains(all, chains);
    if chains.len() > 0 {
        let prev = chains.drop_last();
        let p = rows_of_chains(all, prev);
        let more = served(all, chains.last(), None);
        lemma_rows_of_chains(all, prev, row);
        if r.contains(row) {
            let i = r.index_of(row);
            if i < p.len() {
                assert(p[i] == row);
                assert(p.contains(row));
                let c = choose|c: u64|
                    prev.contains(c) && #[trigger] served(all, c, None).contains(row);
                assert(chains[prev.index_of(c)] == c);
                assert(chains.contains(c) && served(all, c, None).contains(row));
            } else {
                assert(more[i - p.len()] == row);
                assert(chains[chains.len() - 1] == chains.last());
                assert(chains.contains(chains.last()) && more.contains(row));
            }
        }
        if exists|c: u64| chains.contains(c) && #[trigger] served(all, c, None).contains(row) {
            let c = choose|c: u64|
                chains.contains(c) && #[trigger] served(all, c, None).contains(row);
            let j = chains.index_of(c);
            if j < prev.len() {
                assert(prev[j] == c);
                assert(prev.contains(c) && served(all, c, None).contains(row));
                assert(p.contains(row));
                assert(r[p.index_of(row)] == row);
            } else {
                assert(r[p.len() + more.index_of(row)] == row);
            }
        }
    }
}

} // verus!
