//! Which rows the catalogue serves, as mathematics: the order of the buckets, one row for each
//! address, and the edits of a bucket.
use vstd::prelude::*;

use crate::text::normalized;
use crate::token::{RowView, TokenSource, TokenView};

verus! {

/// Two tokens with one key are the same token to the catalogue: the chain and the normalised
/// address.
pub open spec fn key(t: TokenView) -> (u64, Seq<char>) {
    (t.chain_id, normalized(t.address))
}

/// The rows of a bucket.
pub open spec fn labelled(tokens: Seq<TokenView>, source: TokenSource) -> Seq<RowView> {
    tokens.map_values(|t: TokenView| RowView { token: t, source })
}

/// Whether an address is asked for; without a list of addresses every one is.
pub open spec fn wanted(want: Option<Seq<Seq<char>>>, address: Seq<char>) -> bool {
    match want {
        Some(w) => w.contains(normalized(address)),
        None => true,
    }
}

/// No row before the `i`-th stands for the same token.
pub open spec fn is_first(all: Seq<RowView>, i: int) -> bool {
    forall|j: int| 0 <= j < i ==> key(#[trigger] all[j].token) != key(all[i].token)
}

/// The `i`-th row is served: it is on the chain, it is asked for, and it is the first of its key.
pub open spec fn is_served(
    all: Seq<RowView>,
    i: int,
    chain_id: u64,
    want: Option<Seq<Seq<char>>>,
) -> bool {
    &&& all[i].token.chain_id == chain_id
    &&& wanted(want, all[i].token.address)
    &&& is_first(all, i)
}

/// The rows of `all` that are served, in order.
pub open spec fn served(all: Seq<RowView>, chain_id: u64, want: Option<Seq<Seq<char>>>) -> Seq<
    RowView,
>
    decreases all.len(),
{
    if all.len() == 0 {
        Seq::empty()
    } else {
        let before = served(all.drop_last(), chain_id, want);
        if is_served(all, all.len() - 1, chain_id, want) {
            before.push(all.last())
        } else {
            before
        }
    }
}

/// Some row of `rows` has this normalised address.
pub open spec fn has_address(rows: Seq<RowView>, address: Seq<char>) -> bool {
    exists|i: int|
        0 <= i < rows.len() && normalized(#[trigger] rows[i].token.address) == address
}

/// Every served row is a row that `is_served` accepts.
pub proof fn lemma_served_sound(all: Seq<RowView>, chain_id: u64, want: Option<Seq<Seq<char>>>)
    ensures
        forall|k: int|
            0 <= k < served(all, chain_id, want).len() ==> exists|i: int|
                0 <= i < all.len() && #[trigger] all[i] == #[trigger] served(
                    all,
                    chain_id,
                    want,
                )[k] && is_served(all, i, chain_id, want),
    decreases all.len(),
{
    if all.len() > 0 {
        let prev = all.drop_last();
        lemma_served_sound(prev, chain_id, want);
        let rows = served(all, chain_id, want);
        let before = served(prev, chain_id, want);
        assert forall|k: int| 0 <= k < rows.len() implies exists|i: int|
            0 <= i < all.len() && #[trigger] all[i] == #[trigger] rows[k] && is_served(
                all,
                i,
                chain_id,
                want,
            ) by {
            if k < before.len() {
                assert(rows[k] == before[k]);
                let i = choose|i: int|
                    0 <= i < prev.len() && #[trigger] prev[i] == before[k] && is_served(
                        prev,
                        i,
                        chain_id,
                        want,
                    );
                assert(all[i] == prev[i]);
                assert forall|j: int| 0 <= j < i implies key(#[trigger] all[j].token) != key(
                    all[i].token,
                ) by {
                    assert(all[j] == prev[j]);
                }
            } else {
                assert(all[all.len() - 1] == rows[k]);
            }
        }
    }
}

/// Every row that is on the chain and asked for has its address among the served rows.
pub proof fn lemma_served_complete(
    all: Seq<RowView>,
    chain_id: u64,
    want: Option<Seq<Seq<char>>>,
    i: int,
)
    requires
        0 <= i < all.len(),
        all[i].token.chain_id == chain_id,
        wanted(want, all[i].token.address),
    ensures
        has_address(served(all, chain_id, want), normalized(all[i].token.address)),
    decreases all.len(), i,
{
    let prev = all.drop_last();
    let rows = served(all, chain_id, want);
    let before = served(prev, chain_id, want);
    if i < all.len() - 1 {
        lemma_served_complete(prev, chain_id, want, i);
        let k = choose|k: int|
            0 <= k < before.len() && normalized(#[trigger] before[k].token.address) == normalized(
                all[i].token.address,
            );
        assert(rows[k] == before[k]);
    } else if is_first(all, i) {
        assert(rows[before.len() as int] == all[i]);
    } else {
        let j = choose|j: int|
            0 <= j < i && key(#[trigger] all[j].token) == key(all[i].token);
        lemma_served_complete(all, chain_id, want, j);
    }
}

/// A row joins those that are served when it is on the chain, asked for, and its address is not
/// there yet.
pub proof fn lemma_served_push(
    all: Seq<RowView>,
    row: RowView,
    chain_id: u64,
    want: Option<Seq<Seq<char>>>,
)
    ensures
        served(all.push(row), chain_id, want) == (if row.token.chain_id == chain_id && wanted(
            want,
            row.token.address,
        ) && !has_address(served(all, chain_id, want), normalized(row.token.address)) {
            served(all, chain_id, want).push(row)
        } else {
            served(all, chain_id, want)
        }),
{
    let more = all.push(row);
    let rows = served(all, chain_id, want);
    let address = normalized(row.token.address);
    assert(more.drop_last() =~= all);
    assert(more.last() == row);
    if row.token.chain_id == chain_id && wanted(want, row.token.address) {
        if has_address(rows, address) {
            let k = choose|k: int|
                0 <= k < rows.len() && normalized(#[trigger] rows[k].token.address) == address;
            lemma_served_sound(all, chain_id, want);
            let i = choose|i: int|
                0 <= i < all.len() && #[trigger] all[i] == rows[k] && is_served(
                    all,
                    i,
                    chain_id,
                    want,
                );
            assert(more[i] == all[i]);
            assert(key(more[i].token) == key(row.token));
            assert(!is_first(more, more.len() - 1));
        } else {
            assert forall|j: int| 0 <= j < more.len() - 1 implies key(#[trigger] more[j].token)
                != key(row.token) by {
                assert(more[j] == all[j]);
                if key(all[j].token) == key(row.token) {
                    lemma_served_complete(all, chain_id, want, j);
                }
            }
            assert(is_first(more, more.len() - 1));
        }
    }
}

/// The sequence goes up, without repeating itself.
pub open spec fn ascending(s: Seq<u64>) -> bool {
    forall|i: int, j: int| 0 <= i < j < s.len() ==> s[i] < s[j]
}

/// An ascending sequence with `c` put where it belongs.
pub open spec fn with_chain(s: Seq<u64>, c: u64) -> Seq<u64>
    decreases s.len(),
{
    if s.len() == 0 || s.last() < c {
        s.push(c)
    } else if s.last() == c {
        s
    } else {
        with_chain(s.drop_last(), c).push(s.last())
    }
}

/// The distinct chain ids of some tokens, in ascending order.
pub open spec fn chain_ids(tokens: Seq<TokenView>) -> Seq<u64>
    decreases tokens.len(),
{
    if tokens.len() == 0 {
        Seq::empty()
    } else {
        with_chain(chain_ids(tokens.drop_last()), tokens.last().chain_id)
    }
}

/// Some token is on this chain.
pub open spec fn on_chain(tokens: Seq<TokenView>, c: u64) -> bool {
    exists|i: int| 0 <= i < tokens.len() && (#[trigger] tokens[i]).chain_id == c
}

/// Putting `c` in its place keeps the order and adds `c` and nothing else.
pub proof fn lemma_with_chain(s: Seq<u64>, c: u64)
    requires
        ascending(s),
    ensures
        ascending(with_chain(s, c)),
        forall|x: u64| #[trigger] with_chain(s, c).contains(x) <==> s.contains(x) || x == c,
    decreases s.len(),
{
    let r = with_chain(s, c);
    if s.len() == 0 || s.last() < c {
        assert(r[s.len() as int] == c);
        assert forall|x: u64| #[trigger] r.contains(x) <==> s.contains(x) || x == c by {
            if s.contains(x) {
                let i = s.index_of(x);
                assert(r[i] == x);
            }
        }
    } else if s.last() == c {
    } else {
        let p = s.drop_last();
        lemma_with_chain(p, c);
        let q = with_chain(p, c);
        assert forall|x: u64| #[trigger] q.contains(x) implies x < s.last() by {
            if p.contains(x) {
                let i = p.index_of(x);
                assert(s[i] == x);
            }
        }
        assert forall|i: int, j: int| 0 <= i < j < r.len() implies r[i] < r[j] by {
            if j == r.len() - 1 {
                assert(q.contains(q[i]));
            }
        }
        assert forall|x: u64| #[trigger] r.contains(x) <==> s.contains(x) || x == c by {
            assert(r == q.push(s.last()));
            if r.contains(x) {
                let i = r.index_of(x);
                if i < q.len() {
                    assert(q[i] == x);
                    assert(q.contains(x));
                    if p.contains(x) {
                        assert(s[p.index_of(x)] == x);
                    }
                } else {
                    assert(s[s.len() - 1] == x);
                }
            }
            if s.contains(x) {
                let i = s.index_of(x);
                if i < p.len() {
                    assert(p[i] == x);
                    assert(q.contains(x));
                    assert(r[q.index_of(x)] == x);
                } else {
                    assert(r[q.len() as int] == x);
                }
            }
            if x == c {
                assert(q.contains(x));
                assert(r[q.index_of(x)] == x);
            }
        }
    }
}

/// The chain ids go up without repeating, and are those of the tokens.
pub proof fn lemma_chain_ids(tokens: Seq<TokenView>)
    ensures
        ascending(chain_ids(tokens)),
        forall|c: u64| #[trigger] chain_ids(tokens).contains(c) <==> on_chain(tokens, c),
    decreases tokens.len(),
{
    if tokens.len() > 0 {
        let prev = tokens.drop_last();
        lemma_chain_ids(prev);
        lemma_with_chain(chain_ids(prev), tokens.last().chain_id);
        assert forall|c: u64| #[trigger] chain_ids(tokens).contains(c) <==> on_chain(
            tokens,
            c,
        ) by {
            if on_chain(prev, c) {
                let i = choose|i: int| 0 <= i < prev.len() && (#[trigger] prev[i]).chain_id == c;
                assert(tokens[i].chain_id == c);
            }
            if on_chain(tokens, c) {
                let i = choose|i: int|
                    0 <= i < tokens.len() && (#[trigger] tokens[i]).chain_id == c;
                if i < prev.len() {
                    assert(prev[i].chain_id == c);
                }
            }
            if tokens.last().chain_id == c {
                assert(tokens[tokens.len() - 1].chain_id == c);
            }
        }
    }
}

/// An ascending sequence is fixed by what it contains.
pub proof fn lemma_ascending_unique(a: Seq<u64>, b: Seq<u64>)
    requires
        ascending(a),
        ascending(b),
        forall|x: u64| a.contains(x) <==> b.contains(x),
    ensures
        a == b,
    decreases a.len(),
{
    if a.len() == 0 {
        if b.len() > 0 {
            assert(b.contains(b[0]));
            assert(a.contains(b[0]));
        }
        assert(a =~= b);
    } else {
        assert(a.contains(a.last()));
        assert(b.contains(a.last()));
        let j = b.index_of(a.last());
        assert(a.contains(b.last()));
        let i = a.index_of(b.last());
        assert(a.last() == b.last());
        let p = a.drop_last();
        let q = b.drop_last();
        assert forall|x: u64| p.contains(x) <==> q.contains(x) by {
            if p.contains(x) {
                assert(a[p.index_of(x)] == x);
                assert(b.contains(x));
                assert(q[b.index_of(x)] == x);
            }
            if q.contains(x) {
                assert(b[q.index_of(x)] == x);
                assert(a.contains(x));
                assert(p[a.index_of(x)] == x);
            }
        }
        lemma_ascending_unique(p, q);
        assert(a =~= p.push(a.last()));
        assert(b =~= q.push(b.last()));
    }
}

/// `c` is put in its place in an ascending list, unless it is there.
pub(crate) fn insert_chain(list: &mut Vec<u64>, c: u64)
    requires
        ascending(old(list)@),
    ensures
        final(list)@ == with_chain(old(list)@, c),
        ascending(final(list)@),
{
    let ghost before = list@;
    let mut i: usize = 0;
    while i < list.len() && list[i] < c
        invariant
            i <= list.len(),
            list@ == before,
            forall|j: int| 0 <= j < i ==> list@[j] < c,
        decreases list.len() - i,
    {
        i = i + 1;
    }
    proof {
        lemma_with_chain(before, c);
    }
    if i < list.len() && list[i] == c {
        proof {
            assert(before.contains(before[i as int]));
            lemma_ascending_unique(with_chain(before, c), before);
        }
        return ;
    }
    list.insert(i, c);
    proof {
        let after = list@;
        assert(after == before.insert(i as int, c));
        assert forall|x: u64| after.contains(x) <==> before.contains(x) || x == c by {
            if before.contains(x) {
                let k = before.index_of(x);
                if k < i {
                    assert(after[k] == x);
                } else {
                    assert(after[k + 1] == x);
                }
            }
            if x == c {
                assert(after[i as int] == x);
            }
            if after.contains(x) {
                let k = after.index_of(x);
                if k < i {
                    assert(before[k] == x);
                } else if k > i {
                    assert(before[k - 1] == x);
                }
            }
        }
        assert(ascending(after)) by {
            assert forall|a: int, b: int| 0 <= a < b < after.len() implies after[a] < after[b] by {
                if i < before.len() {
                    assert(before[i as int] > c);
                }
                if a < i && b == i {
                    assert(before[a] < c);
                } else if a == i {
                    assert(after[b] == before[b - 1]);
                    assert(before[b - 1] >= before[i as int]);
                } else if a < i {
                    assert(after[a] == before[a]);
                    if b > i {
                        assert(after[b] == before[b - 1]);
                    } else {
                        assert(after[b] == before[b]);
                    }
                } else {
                    assert(after[a] == before[a - 1]);
                    assert(after[b] == before[b - 1]);
                }
            }
        }
        lemma_ascending_unique(with_chain(before, c), after);
    }
}

/// How a filtered sequence grows.
pub proof fn lemma_filter_push<A>(s: Seq<A>, x: A, p: spec_fn(A) -> bool)
    ensures
        s.push(x).filter(p) == (if p(x) {
            s.filter(p).push(x)
        } else {
            s.filter(p)
        }),
{
    reveal(Seq::filter);
    assert(s.push(x).drop_last() =~= s);
}

/// Nothing is left of nothing.
pub proof fn lemma_filter_empty<A>(p: spec_fn(A) -> bool)
    ensures
        Seq::<A>::empty().filter(p) == Seq::<A>::empty(),
{
    reveal(Seq::filter);
}

/// `t` is not the token with key `k`.
pub open spec fn other_than(k: (u64, Seq<char>)) -> spec_fn(TokenView) -> bool {
    |t: TokenView| key(t) != k
}

/// `tokens` without those of key `k`.
pub open spec fn without(tokens: Seq<TokenView>, k: (u64, Seq<char>)) -> Seq<TokenView> {
    tokens.filter(other_than(k))
}

/// `tokens` with `t` in the place of whatever has its key. A token that is there already, to the
/// letter, changes nothing.
pub open spec fn upserted(tokens: Seq<TokenView>, t: TokenView) -> Seq<TokenView> {
    if tokens.contains(t) {
        tokens
    } else {
        without(tokens, key(t)).push(t)
    }
}

/// Some token has key `k`.
pub open spec fn has_key(tokens: Seq<TokenView>, k: (u64, Seq<char>)) -> bool {
    exists|i: int| 0 <= i < tokens.len() && key(#[trigger] tokens[i]) == k
}

/// Where the last token of key `k` stands; `-1` where there is none.
pub open spec fn last_of_key(tokens: Seq<TokenView>, k: (u64, Seq<char>)) -> int
    decreases tokens.len(),
{
    if tokens.len() == 0 {
        -1
    } else if key(tokens.last()) == k {
        tokens.len() - 1
    } else {
        last_of_key(tokens.drop_last(), k)
    }
}

/// `tokens` with `t` merged in: over the last token of its key, or at the end.
pub open spec fn merged_one(tokens: Seq<TokenView>, t: TokenView) -> Seq<TokenView> {
    let i = last_of_key(tokens, key(t));
    if i < 0 {
        tokens.push(t)
    } else {
        tokens.update(i, t)
    }
}

/// `tokens` with all of `more` merged in, one after the other.
pub open spec fn merged(tokens: Seq<TokenView>, more: Seq<TokenView>) -> Seq<TokenView>
    decreases more.len(),
{
    if more.len() == 0 {
        tokens
    } else {
        merged_one(merged(tokens, more.drop_last()), more.last())
    }
}

/// What [`last_of_key`] finds.
pub proof fn lemma_last_of_key(tokens: Seq<TokenView>, k: (u64, Seq<char>))
    ensures
        -1 <= last_of_key(tokens, k) < tokens.len(),
        last_of_key(tokens, k) >= 0 ==> key(tokens[last_of_key(tokens, k)]) == k,
        forall|i: int|
            last_of_key(tokens, k) < i < tokens.len() ==> key(#[trigger] tokens[i]) != k,
    decreases tokens.len(),
{
    if tokens.len() > 0 && key(tokens.last()) != k {
        let prev = tokens.drop_last();
        lemma_last_of_key(prev, k);
        assert forall|i: int| last_of_key(tokens, k) < i < tokens.len() implies key(
            #[trigger] tokens[i],
        ) != k by {
            if i < prev.len() {
                assert(tokens[i] == prev[i]);
            }
        }
    }
}

/// An index that has what [`last_of_key`] has is the one it finds.
pub proof fn lemma_last_of_key_is(tokens: Seq<TokenView>, k: (u64, Seq<char>), at: int)
    requires
        -1 <= at < tokens.len(),
        at >= 0 ==> key(tokens[at]) == k,
        forall|i: int| at < i < tokens.len() ==> key(#[trigger] tokens[i]) != k,
    ensures
        last_of_key(tokens, k) == at,
{
    lemma_last_of_key(tokens, k);
    let found = last_of_key(tokens, k);
    if found > at {
        assert(key(tokens[found]) == k);
    }
    if found < at {
        assert(key(tokens[at]) == k);
    }
}

/// How [`without`] grows with the tokens it is taken of.
pub proof fn lemma_without_push(tokens: Seq<TokenView>, t: TokenView, k: (u64, Seq<char>))
    ensures
        without(tokens.push(t), k) == (if key(t) == k {
            without(tokens, k)
        } else {
            without(tokens, k).push(t)
        }),
{
    lemma_filter_push(tokens, t, other_than(k));
}

/// What [`without`] leaves: the tokens of every other key, and no token of this one.
pub proof fn lemma_without(tokens: Seq<TokenView>, k: (u64, Seq<char>))
    ensures
        !has_key(without(tokens, k), k),
        forall|t: TokenView|
            #[trigger] without(tokens, k).contains(t) <==> tokens.contains(t) && key(t) != k,
        without(tokens, k).len() <= tokens.len(),
        without(tokens, k).len() == tokens.len() <==> !has_key(tokens, k),
        !has_key(tokens, k) ==> without(tokens, k) == tokens,
    decreases tokens.len(),
{
    if tokens.len() > 0 {
        let prev = tokens.drop_last();
        let t = tokens.last();
        let r = without(tokens, k);
        let p = without(prev, k);
        lemma_without(prev, k);
        assert(prev.push(t) =~= tokens);
        lemma_without_push(prev, t, k);
        if has_key(r, k) {
            let i = choose|i: int| 0 <= i < r.len() && key(#[trigger] r[i]) == k;
            assert(i < p.len());
            assert(key(p[i]) == k);
        }
        assert forall|x: TokenView| #[trigger] r.contains(x) <==> tokens.contains(x) && key(x)
            != k by {
            if r.contains(x) {
                let i = r.index_of(x);
                if i < p.len() {
                    assert(p[i] == x);
                    assert(p.contains(x));
                    assert(tokens[prev.index_of(x)] == x);
                } else {
                    assert(tokens[tokens.len() - 1] == x);
                }
            }
            if tokens.contains(x) && key(x) != k {
                let i = tokens.index_of(x);
                if i < prev.len() {
                    assert(prev[i] == x);
                    assert(p.contains(x));
                    assert(r[p.index_of(x)] == x);
                } else {
                    assert(r[p.len() as int] == x);
                }
            }
        }
        if has_key(prev, k) {
            let i = choose|i: int| 0 <= i < prev.len() && key(#[trigger] prev[i]) == k;
            assert(key(tokens[i]) == k);
        }
        if has_key(tokens, k) {
            let i = choose|i: int| 0 <= i < tokens.len() && key(#[trigger] tokens[i]) == k;
            if i < prev.len() {
                assert(key(prev[i]) == k);
            }
        }
        if key(t) == k {
            assert(key(tokens[tokens.len() - 1]) == k);
        }
        if !has_key(tokens, k) {
            assert(r =~= tokens);
        }
    } else {
        assert(tokens =~= Seq::empty());
        lemma_filter_empty(other_than(k));
    }
}

} // verus!
