//! Fingerprints of what is served.
use std::collections::BTreeMap;
use std::collections::hash_map::DefaultHasher;
use std::hash::Hasher;

use vstd::prelude::*;
use vstd::std_specs::btree::spec_keys_iter;
use vstd::std_specs::hash::DefaultHasherAdditionalSpecFns;
use vstd::std_specs::iter::IteratorSpec;
use vstd::utf8::encode_utf8;

use crate::catalogue::{ascending, insert_chain, lemma_ascending_unique, lemma_with_chain};
use crate::token::{row_views, views, RowView, Token, TokenRow, TokenSource, TokenView};

verus! {

/// A fingerprint of the served rows for each chain. The point is the difference between two of
/// them, never the value.
pub type ChainDigests = BTreeMap<u64, u64>;

/// The eight bytes of a number, the lowest first.
pub open spec fn number_bytes(n: u64) -> Seq<u8> {
    seq![
        (n % 256) as u8,
        (n / 0x100 % 256) as u8,
        (n / 0x1_0000 % 256) as u8,
        (n / 0x100_0000 % 256) as u8,
        (n / 0x1_0000_0000 % 256) as u8,
        (n / 0x100_0000_0000 % 256) as u8,
        (n / 0x1_0000_0000_0000 % 256) as u8,
        (n / 0x100_0000_0000_0000 % 256) as u8,
    ]
}

/// A text in UTF-8, ended by a byte that UTF-8 does not use.
pub open spec fn text_bytes(s: Seq<char>) -> Seq<u8> {
    encode_utf8(s).push(0xff)
}

/// An optional text: whether it is there, and the text.
pub open spec fn opt_text_bytes(s: Option<Seq<char>>) -> Seq<u8> {
    match s {
        Some(s) => seq![1u8] + text_bytes(s),
        None => seq![0u8],
    }
}

/// A token, field by field.
pub open spec fn token_bytes(t: TokenView) -> Seq<u8> {
    number_bytes(t.chain_id) + (text_bytes(t.address) + (text_bytes(t.name) + (text_bytes(t.symbol)
        + (seq![t.decimals] + opt_text_bytes(t.logo_uri)))))
}

/// A byte for each bucket.
pub open spec fn source_byte(s: TokenSource) -> u8 {
    match s {
        TokenSource::Custom => 0,
        TokenSource::Downloaded => 1,
        TokenSource::Embedded => 2,
    }
}

/// A row: its token and its bucket.
pub open spec fn row_bytes(r: RowView) -> Seq<u8> {
    token_bytes(r.token) + seq![source_byte(r.source)]
}

/// Rows, each announced by a one, ended by a zero.
pub open spec fn rows_bytes(rows: Seq<RowView>) -> Seq<u8>
    decreases rows.len(),
{
    if rows.len() == 0 {
        seq![0u8]
    } else {
        seq![1u8] + (row_bytes(rows.first()) + rows_bytes(rows.drop_first()))
    }
}

/// Tokens, each announced by a one, ended by a zero.
pub open spec fn tokens_bytes(tokens: Seq<TokenView>) -> Seq<u8>
    decreases tokens.len(),
{
    if tokens.len() == 0 {
        seq![0u8]
    } else {
        seq![1u8] + (token_bytes(tokens.first()) + tokens_bytes(tokens.drop_first()))
    }
}

/// What is hashed of a chain: the rows that are served and the tokens that are offered.
pub open spec fn fingerprint(rows: Seq<RowView>, offered: Seq<TokenView>) -> Seq<u8> {
    rows_bytes(rows) + tokens_bytes(offered)
}

/// The hash of a fingerprint.
pub open spec fn digest_of(bytes: Seq<u8>) -> u64 {
    DefaultHasher::spec_finish(seq![bytes])
}

fn push_number(out: &mut Vec<u8>, n: u64)
    ensures
        final(out)@ == old(out)@ + number_bytes(n),
{
    out.push((n % 256) as u8);
    out.push((n / 0x100 % 256) as u8);
    out.push((n / 0x1_0000 % 256) as u8);
    out.push((n / 0x100_0000 % 256) as u8);
    out.push((n / 0x1_0000_0000 % 256) as u8);
    out.push((n / 0x100_0000_0000 % 256) as u8);
    out.push((n / 0x1_0000_0000_0000 % 256) as u8);
    out.push((n / 0x100_0000_0000_0000 % 256) as u8);
    assert(out@ =~= old(out)@ + number_bytes(n));
}

fn push_text(out: &mut Vec<u8>, s: &String)
    ensures
        final(out)@ == old(out)@ + text_bytes(s@),
{
    let bytes = s.as_str().as_bytes();
    out.extend_from_slice(bytes);
    assert(out@ =~= old(out)@ + encode_utf8(s@));
    out.push(0xff);
    assert(out@ =~= old(out)@ + text_bytes(s@));
}

fn push_token(out: &mut Vec<u8>, t: &Token)
    ensures
        final(out)@ == old(out)@ + token_bytes(t@),
{
    push_number(out, t.chain_id);
    push_text(out, &t.address);
    push_text(out, &t.name);
    push_text(out, &t.symbol);
    out.push(t.decimals);
    match &t.logo_uri {
        Some(uri) => {
            out.push(1);
            push_text(out, uri);
        },
        None => {
            out.push(0);
        },
    }
    assert(out@ =~= old(out)@ + token_bytes(t@));
}

/// Writes down what is hashed of a chain.
fn write_down(rows: &Vec<TokenRow>, offered: &Vec<Token>) -> (r: Vec<u8>)
    ensures
        r@ == fingerprint(row_views(rows@), views(offered@)),
{
    let mut out: Vec<u8> = Vec::new();
    let ghost all = row_views(rows@);
    let mut i: usize = 0;
    assert(all.skip(0) =~= all);
    while i < rows.len()
        invariant
            i <= rows.len(),
            all == row_views(rows@),
            out@ + rows_bytes(all.skip(i as int)) == rows_bytes(all),
        decreases rows.len() - i,
    {
        let ghost before = out@;
        let r = &rows[i];
        out.push(1);
        push_token(&mut out, &r.token);
        out.push(
            match r.source {
                TokenSource::Custom => 0,
                TokenSource::Downloaded => 1,
                TokenSource::Embedded => 2,
            },
        );
        proof {
            let rest = all.skip(i as int);
            assert(rest.first() == r@);
            assert(rest.drop_first() =~= all.skip(i + 1));
            assert(out@ + rows_bytes(all.skip(i + 1)) =~= before + rows_bytes(rest));
        }
        i = i + 1;
    }
    assert(all.skip(i as int).len() == 0);
    out.push(0);
    assert(out@ =~= rows_bytes(all));
    let ghost start = out@;
    let ghost tokens = views(offered@);
    i = 0;
    assert(tokens.skip(0) =~= tokens);
    while i < offered.len()
        invariant
            i <= offered.len(),
            tokens == views(offered@),
            out@ + tokens_bytes(tokens.skip(i as int)) == start + tokens_bytes(tokens),
        decreases offered.len() - i,
    {
        let ghost before = out@;
        out.push(1);
        push_token(&mut out, &offered[i]);
        proof {
            let rest = tokens.skip(i as int);
            assert(rest.first() == offered@[i as int]@);
            assert(rest.drop_first() =~= tokens.skip(i + 1));
            assert(out@ + tokens_bytes(tokens.skip(i + 1)) =~= before + tokens_bytes(rest));
        }
        i = i + 1;
    }
    assert(tokens.skip(i as int).len() == 0);
    out.push(0);
    assert(out@ =~= start + tokens_bytes(tokens));
    out
}

/// Fingerprints what a chain serves.
pub fn chain_digest(rows: &Vec<TokenRow>, offered: &Vec<Token>) -> (r: u64)
    ensures
        r == digest_of(fingerprint(row_views(rows@), views(offered@))),
{
    let bytes = write_down(rows, offered);
    let mut h = DefaultHasher::new();
    h.write(bytes.as_slice());
    assert(h@ =~= seq![bytes@]);
    h.finish()
}

/// A chain's fingerprint is not what it was; it may also have appeared or vanished.
pub open spec fn moved(before: Map<u64, u64>, after: Map<u64, u64>, c: u64) -> bool {
    ||| before.contains_key(c) != after.contains_key(c)
    ||| before.contains_key(c) && before[c] != after[c]
}

/// `s` lists the chains that moved, in ascending order.
pub open spec fn lists_moved(s: Seq<u64>, before: Map<u64, u64>, after: Map<u64, u64>) -> bool {
    &&& ascending(s)
    &&& forall|c: u64| #[trigger] s.contains(c) <==> moved(before, after, c)
}

/// The chains that moved, in ascending order.
pub open spec fn moved_chains(before: Map<u64, u64>, after: Map<u64, u64>) -> Seq<u64> {
    choose|s: Seq<u64>| lists_moved(s, before, after)
}

/// There is one list of the chains that moved.
pub proof fn lemma_moved_chains(s: Seq<u64>, before: Map<u64, u64>, after: Map<u64, u64>)
    requires
        lists_moved(s, before, after),
    ensures
        moved_chains(before, after) == s,
        lists_moved(moved_chains(before, after), before, after),
{
    lemma_ascending_unique(moved_chains(before, after), s);
}

/// Chains whose served rows differ between two snapshots, also those that appeared or vanished.
/// An empty result means that nothing moved.
pub fn changed_chains(before: &ChainDigests, after: &ChainDigests) -> (r: Vec<u64>)
    ensures
        lists_moved(r@, before@, after@),
        r@ == moved_chains(before@, after@),
{
    broadcast use vstd::std_specs::btree::group_btree_axioms;

    let mut out: Vec<u64> = Vec::new();
    let ghost keys = spec_keys_iter(before).remaining();
    for k in it: before.keys()
        invariant
            it.seq() == keys,
            ascending(out@),
            forall|c: u64|
                #[trigger] out@.contains(c) <==> moved(before@, after@, c) && exists|j: int|
                    0 <= j < it.index() && *(#[trigger] keys[j]) == c,
    {
        let b = before.get(k);
        let a = after.get(k);
        let differs = match (b, a) {
            (Some(b), Some(a)) => *b != *a,
            (None, None) => false,
            _ => true,
        };
        if differs {
            proof {
                lemma_with_chain(out@, *k);
            }
            insert_chain(&mut out, *k);
        }
    }
    assert forall|c: u64| #[trigger] out@.contains(c) <==> moved(before@, after@, c)
        && before@.contains_key(c) by {
        assert(keys.unref().to_set() == before@.dom());
        if before@.contains_key(c) {
            assert(keys.unref().to_set().contains(c));
            let j = choose|j: int| 0 <= j < keys.unref().len() && keys.unref()[j] == c;
            assert(*keys[j] == c);
        }
        if exists|j: int| 0 <= j < keys.len() && *(#[trigger] keys[j]) == c {
            let j = choose|j: int| 0 <= j < keys.len() && *(#[trigger] keys[j]) == c;
            assert(keys.unref()[j] == c);
            assert(keys.unref().to_set().contains(c));
        }
    }
    for k in it: after.keys()
        invariant
            ascending(out@),
            forall|c: u64|
                #[trigger] out@.contains(c) <==> moved(before@, after@, c) && (
                before@.contains_key(c) || exists|j: int|
                    0 <= j < it.index() && *(#[trigger] it.seq()[j]) == c),
    {
        if !before.contains_key(k) {
            proof {
                lemma_with_chain(out@, *k);
            }
            insert_chain(&mut out, *k);
        }
    }
    proof {
        lemma_moved_chains(out@, before@, after@);
    }
    out
}

} // verus!
