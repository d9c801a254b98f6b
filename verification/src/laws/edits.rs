//! What the edits of a list keep, undo and leave alone.
use vstd::prelude::*;

use crate::catalogue::{
    has_key, is_served, key, last_of_key, lemma_last_of_key, lemma_last_of_key_is, lemma_without,
    lemma_without_push, merged, merged_one, served, upserted, without,
};
use crate::config::{ConfigSource, ConfigView, WireView};
use crate::model::ListView;
use crate::text::normalized;
use crate::token::{parsed, DocView, RowView, TokenSource, TokenView};

verus! {

/// An edit that says nothing changes nothing, and saying something twice is saying it once.
pub proof fn law_omission_preserves(w: WireView, c: ConfigView)
    ensures
        WireView::silent().over(c) == c,
        w.over(w.over(c)) == w.over(c),
        w.list_urls is None ==> w.over(c).list_urls == c.list_urls,
        w.proxy is None ==> w.over(c).proxy == c.proxy,
        w.proxy_required is None ==> w.over(c).proxy_required == c.proxy_required,
        w.refresh_secs is None ==> w.over(c).refresh_secs == c.refresh_secs,
        w.timeout_secs is None ==> w.over(c).timeout_secs == c.timeout_secs,
        w.use_embedded_list is None ==> w.over(c).use_embedded_list == c.use_embedded_list,
{
}

/// To configure a list again as it is changes nothing, and once configured it is never defaulted.
pub proof fn law_configured_once(v: ListView, c: ConfigView)
    ensures
        v.configured(c).config == c,
        v.configured(c).config_source == ConfigSource::External,
        v.configured(c).configured(c) == v.configured(c),
        v.configured(c).defaulted() == v.configured(c),
{
}

/// The defaults are applied at most once, and never over what somebody configured.
pub proof fn law_defaults_apply_once(v: ListView)
    ensures
        v.defaulted().config_source != ConfigSource::Unset,
        v.defaulted().defaulted() == v.defaulted(),
        v.config_source != ConfigSource::Unset ==> v.defaulted() == v,
        v.config_source == ConfigSource::Unset ==> v.defaulted().config == ConfigView::defaults(),
{
}

/// No key occurs twice.
pub open spec fn distinct_keys(tokens: Seq<TokenView>) -> bool {
    forall|i: int, j: int|
        0 <= i < j < tokens.len() ==> key(#[trigger] tokens[i]) != key(#[trigger] tokens[j])
}

/// Adding a token puts it in the place of whatever had its key, and leaves every other token
/// alone. Adding it again changes nothing.
pub proof fn law_add_replaces(tokens: Seq<TokenView>, t: TokenView)
    ensures
        upserted(tokens, t).contains(t),
        upserted(upserted(tokens, t), t) == upserted(tokens, t),
        forall|x: TokenView|
            key(x) != key(t) ==> (#[trigger] upserted(tokens, t).contains(x) <==> tokens.contains(
                x,
            )),
        !tokens.contains(t) ==> forall|x: TokenView|
            #[trigger] upserted(tokens, t).contains(x) && key(x) == key(t) ==> x == t,
{
    lemma_without(tokens, key(t));
    let rest = without(tokens, key(t));
    let r = upserted(tokens, t);
    if !tokens.contains(t) {
        assert(r[rest.len() as int] == t);
        assert forall|x: TokenView| #[trigger] r.contains(x) <==> rest.contains(x) || x == t by {
            if rest.contains(x) {
                assert(r[rest.index_of(x)] == x);
            }
            if r.contains(x) {
                let i = r.index_of(x);
                if i < rest.len() {
                    assert(rest[i] == x);
                }
            }
        }
    }
}

/// Without one key, what is left has no key twice if there was none before.
proof fn lemma_without_distinct(tokens: Seq<TokenView>, k: (u64, Seq<char>))
    requires
        distinct_keys(tokens),
    ensures
        distinct_keys(without(tokens, k)),
    decreases tokens.len(),
{
    if tokens.len() > 0 {
        let prev = tokens.drop_last();
        let t = tokens.last();
        assert(distinct_keys(prev));
        lemma_without_distinct(prev, k);
        lemma_without(prev, k);
        assert(prev.push(t) =~= tokens);
        lemma_without_push(prev, t, k);
        let r = without(tokens, k);
        let p = without(prev, k);
        assert forall|i: int, j: int| 0 <= i < j < r.len() implies key(#[trigger] r[i]) != key(
            #[trigger] r[j],
        ) by {
            if j < p.len() {
                assert(key(p[i]) != key(p[j]));
            } else {
                assert(p.contains(p[i]));
                assert(prev.contains(p[i]));
                let m = prev.index_of(p[i]);
                assert(key(tokens[m]) != key(tokens[tokens.len() - 1]));
            }
        }
    } else {
        lemma_without(tokens, k);
    }
}

/// Adding a token keeps every key apart.
pub proof fn law_add_keeps_keys_apart(tokens: Seq<TokenView>, t: TokenView)
    requires
        distinct_keys(tokens),
    ensures
        distinct_keys(upserted(tokens, t)),
{
    let k = key(t);
    lemma_without_distinct(tokens, k);
    lemma_without(tokens, k);
    let rest = without(tokens, k);
    let r = upserted(tokens, t);
    if !tokens.contains(t) {
        assert forall|i: int, j: int| 0 <= i < j < r.len() implies key(#[trigger] r[i]) != key(
            #[trigger] r[j],
        ) by {
            if j < rest.len() {
                assert(key(rest[i]) != key(rest[j]));
            } else {
                assert(key(rest[i]) != k);
            }
        }
    }
}

/// Removing a token keeps every key apart.
pub proof fn law_remove_keeps_keys_apart(tokens: Seq<TokenView>, k: (u64, Seq<char>))
    requires
        distinct_keys(tokens),
    ensures
        distinct_keys(without(tokens, k)),
{
    lemma_without_distinct(tokens, k);
}

/// Merging a token keeps every key apart.
proof fn lemma_merged_one_distinct(tokens: Seq<TokenView>, t: TokenView)
    requires
        distinct_keys(tokens),
    ensures
        distinct_keys(merged_one(tokens, t)),
{
    lemma_last_of_key(tokens, key(t));
    let at = last_of_key(tokens, key(t));
    let r = merged_one(tokens, t);
    assert forall|i: int, j: int| 0 <= i < j < r.len() implies key(#[trigger] r[i]) != key(
        #[trigger] r[j],
    ) by {
        if at >= 0 {
            assert(key(tokens[i]) != key(tokens[j]));
        } else if j < tokens.len() {
            assert(key(tokens[i]) != key(tokens[j]));
        } else {
            assert(key(tokens[i]) != key(t));
        }
    }
}

/// Merging a list keeps every key apart; into an empty list nothing need be asked for that.
pub proof fn law_merge_keeps_keys_apart(tokens: Seq<TokenView>, more: Seq<TokenView>)
    requires
        distinct_keys(tokens),
    ensures
        distinct_keys(merged(tokens, more)),
    decreases more.len(),
{
    if more.len() > 0 {
        law_merge_keeps_keys_apart(tokens, more.drop_last());
        lemma_merged_one_distinct(merged(tokens, more.drop_last()), more.last());
    }
}

/// What merging one token does to the last token of any key.
proof fn lemma_merged_one_last(tokens: Seq<TokenView>, t: TokenView, k: (u64, Seq<char>))
    ensures
        key(t) == k ==> last_of_key(merged_one(tokens, t), k) >= 0 && merged_one(
            tokens,
            t,
        )[last_of_key(merged_one(tokens, t), k)] == t,
        key(t) != k ==> last_of_key(merged_one(tokens, t), k) == last_of_key(tokens, k),
        key(t) != k && last_of_key(tokens, k) >= 0 ==> merged_one(tokens, t)[last_of_key(
            tokens,
            k,
        )] == tokens[last_of_key(tokens, k)],
{
    let r = merged_one(tokens, t);
    let at = last_of_key(tokens, key(t));
    let old_last = last_of_key(tokens, k);
    lemma_last_of_key(tokens, key(t));
    lemma_last_of_key(tokens, k);
    if key(t) == k {
        let p = if at >= 0 {
            at
        } else {
            tokens.len() as int
        };
        assert forall|i: int| p < i < r.len() implies key(#[trigger] r[i]) != k by {
            assert(r[i] == tokens[i]);
        }
        lemma_last_of_key_is(r, k, p);
    } else {
        assert forall|i: int| old_last < i < r.len() implies key(#[trigger] r[i]) != k by {
            if i < tokens.len() && i != at {
                assert(r[i] == tokens[i]);
            }
        }
        lemma_last_of_key_is(r, k, old_last);
    }
}

/// The last entry of a chain and address wins an import, and an entry of any other chain or
/// address stays where it was.
pub proof fn law_last_entry_wins(tokens: Seq<TokenView>, more: Seq<TokenView>, k: (u64, Seq<char>))
    ensures
        last_of_key(more, k) >= 0 ==> last_of_key(merged(tokens, more), k) >= 0 && merged(
            tokens,
            more,
        )[last_of_key(merged(tokens, more), k)] == more[last_of_key(more, k)],
        last_of_key(more, k) < 0 ==> last_of_key(merged(tokens, more), k) == last_of_key(
            tokens,
            k,
        ),
        last_of_key(more, k) < 0 && last_of_key(tokens, k) >= 0 ==> merged(
            tokens,
            more,
        )[last_of_key(tokens, k)] == tokens[last_of_key(tokens, k)],
    decreases more.len(),
{
    if more.len() > 0 {
        let prev = more.drop_last();
        let t = more.last();
        law_last_entry_wins(tokens, prev, k);
        lemma_merged_one_last(merged(tokens, prev), t, k);
        lemma_last_of_key(prev, k);
    }
}

/// Merging tokens whose keys are all there changes no place's key.
proof fn lemma_merge_of_what_is_there(tokens: Seq<TokenView>, more: Seq<TokenView>)
    requires
        forall|i: int|
            0 <= i < more.len() ==> last_of_key(tokens, key(#[trigger] more[i])) >= 0,
    ensures
        merged(tokens, more).len() == tokens.len(),
        forall|i: int|
            0 <= i < tokens.len() ==> key(#[trigger] merged(tokens, more)[i]) == key(tokens[i]),
    decreases more.len(),
{
    if more.len() > 0 {
        let prev = more.drop_last();
        assert forall|i: int| 0 <= i < prev.len() implies last_of_key(
            tokens,
            key(#[trigger] prev[i]),
        ) >= 0 by {
            assert(prev[i] == more[i]);
        }
        lemma_merge_of_what_is_there(tokens, prev);
        let now = merged(tokens, prev);
        let k = key(more[more.len() - 1]);
        lemma_same_keys_same_last(tokens, now, k);
        lemma_last_of_key(now, k);
    }
}

/// Where the last token of a key stands is a matter of the keys alone.
proof fn lemma_same_keys_same_last(a: Seq<TokenView>, b: Seq<TokenView>, k: (u64, Seq<char>))
    requires
        a.len() == b.len(),
        forall|i: int| 0 <= i < a.len() ==> key(#[trigger] b[i]) == key(a[i]),
    ensures
        last_of_key(a, k) == last_of_key(b, k),
{
    lemma_last_of_key(a, k);
    let at = last_of_key(a, k);
    assert forall|i: int| at < i < b.len() implies key(#[trigger] b[i]) != k by {
        assert(key(a[i]) != k);
    }
    lemma_last_of_key_is(b, k, at);
}

/// A place that is not the last of its key is never written by a merge.
pub proof fn lemma_merge_leaves_the_rest(
    tokens: Seq<TokenView>,
    more: Seq<TokenView>,
    at: int,
)
    requires
        0 <= at < tokens.len(),
        at != last_of_key(tokens, key(tokens[at])),
    ensures
        at < merged(tokens, more).len(),
        merged(tokens, more)[at] == tokens[at],
        at < last_of_key(merged(tokens, more), key(tokens[at])),
    decreases more.len(),
{
    let k = key(tokens[at]);
    if more.len() > 0 {
        let prev = more.drop_last();
        let now = merged(tokens, prev);
        lemma_merge_leaves_the_rest(tokens, prev, at);
        lemma_last_of_key(now, key(more.last()));
        lemma_last_of_key(now, k);
        let r = merged_one(now, more.last());
        lemma_merged_one_last(now, more.last(), k);
        lemma_last_of_key(r, k);
        if last_of_key(r, k) <= at {
            let p = last_of_key(now, k);
            assert(key(r[p]) == k);
        }
    } else {
        lemma_last_of_key(tokens, k);
    }
}

/// To merge a list again changes nothing.
pub proof fn law_merging_again_changes_nothing(tokens: Seq<TokenView>, more: Seq<TokenView>)
    ensures
        merged(merged(tokens, more), more) == merged(tokens, more),
{
    let r = merged(tokens, more);
    assert forall|i: int| 0 <= i < more.len() implies last_of_key(r, key(#[trigger] more[i]))
        >= 0 by {
        let k = key(more[i]);
        lemma_last_of_key(more, k);
        law_last_entry_wins(tokens, more, k);
    }
    lemma_merge_of_what_is_there(r, more);
    let again = merged(r, more);
    assert forall|p: int| 0 <= p < r.len() implies again[p] == r[p] by {
        let k = key(r[p]);
        lemma_last_of_key(r, k);
        if p == last_of_key(r, k) {
            lemma_same_keys_same_last(r, again, k);
            law_last_entry_wins(tokens, more, k);
            law_last_entry_wins(r, more, k);
        } else {
            lemma_merge_leaves_the_rest(r, more, p);
        }
    }
    assert(again =~= r);
}

/// To import a document again moves nothing, whether it replaces or merges, and answers with the
/// same number.
pub proof fn law_reimport_moves_nothing(v: ListView, doc: Result<DocView, Seq<char>>, replace: bool)
    ensures
        v.imported(doc, replace).imported(doc, replace) == v.imported(doc, replace),
        v.imported(doc, replace).import_reply(doc, replace) == v.import_reply(doc, replace),
{
    if let Ok((_, tokens)) = parsed(doc) {
        let start = if replace {
            Seq::empty()
        } else {
            v.custom
        };
        law_merging_again_changes_nothing(start, tokens);
    }
}

/// After an import that replaces, no chain and address occurs twice, and those that occur are those
/// of the document.
pub proof fn law_replacing_import_holds_the_document(tokens: Seq<TokenView>, k: (u64, Seq<char>))
    ensures
        distinct_keys(merged(Seq::empty(), tokens)),
        has_key(merged(Seq::empty(), tokens), k) <==> has_key(tokens, k),
{
    let r = merged(Seq::empty(), tokens);
    law_merge_keeps_keys_apart(Seq::empty(), tokens);
    law_last_entry_wins(Seq::empty(), tokens, k);
    lemma_last_of_key(r, k);
    lemma_last_of_key(tokens, k);
    if has_key(tokens, k) {
        let i = choose|i: int| 0 <= i < tokens.len() && key(#[trigger] tokens[i]) == k;
        assert(last_of_key(tokens, k) >= i);
        assert(key(r[last_of_key(r, k)]) == k);
    }
    if has_key(r, k) {
        let i = choose|i: int| 0 <= i < r.len() && key(#[trigger] r[i]) == k;
        assert(last_of_key(r, k) >= i);
        assert(last_of_key(tokens, k) >= 0);
        assert(key(tokens[last_of_key(tokens, k)]) == k);
    }
}

/// A text that is no document is refused, and changes nothing.
pub proof fn law_refused_import_changes_nothing(v: ListView, words: Seq<char>, replace: bool)
    ensures
        v.imported(Err(words), replace) == v,
        v.import_reply(Err(words), replace) is Err,
        v.import_reply(Err(words), replace)->Err_0 is Parse,
{
}

/// After a removal the token is gone, and every other token is as it was. Removing it again
/// changes nothing.
pub proof fn law_remove_removes(v: ListView, chain_id: u64, address: Seq<char>)
    ensures
        !has_key(v.custom_removed(chain_id, address).custom, (chain_id, normalized(address))),
        forall|t: TokenView|
            key(t) != (chain_id, normalized(address)) ==> (#[trigger] v.custom_removed(
                chain_id,
                address,
            ).custom.contains(t) <==> v.custom.contains(t)),
        v.custom_removed(chain_id, address).custom_removed(chain_id, address)
            == v.custom_removed(chain_id, address),
{
    let k = (chain_id, normalized(address));
    lemma_without(v.custom, k);
    lemma_without(without(v.custom, k), k);
}

/// Removing undoes adding, where there was no token of that key.
pub proof fn law_remove_undoes_add(v: ListView, t: TokenView)
    requires
        !has_key(v.custom, key(t)),
    ensures
        v.custom_added(t).custom_removed(t.chain_id, t.address).custom == v.custom,
{
    let k = key(t);
    lemma_without(v.custom, k);
    if v.custom.contains(t) {
        let i = v.custom.index_of(t);
        assert(key(v.custom[i]) == k);
    }
    let added = upserted(v.custom, t);
    lemma_without_push(without(v.custom, k), t, k);
    lemma_without(without(v.custom, k), k);
    assert(without(added, k) == v.custom);
}

/// A token of this list has its key before any other token does.
pub open spec fn leads(tokens: Seq<TokenView>, t: TokenView) -> bool {
    exists|i: int|
        0 <= i < tokens.len() && #[trigger] tokens[i] == t && forall|j: int|
            0 <= j < i ==> key(#[trigger] tokens[j]) != key(t)
}

/// A token that was added is served for its address, as the user's own. The one exception is a
/// token that was there already, behind another one for the same address.
pub proof fn law_added_token_is_served(v: ListView, t: TokenView)
    requires
        v.custom.contains(t) ==> leads(v.custom, t),
    ensures
        v.custom_added(t).rows(t.chain_id).contains(
            RowView { token: t, source: TokenSource::Custom },
        ),
{
    let after = v.custom_added(t);
    let all = after.catalogue();
    let row = RowView { token: t, source: TokenSource::Custom };
    let rest = without(v.custom, key(t));
    lemma_without(v.custom, key(t));
    let at = if v.custom.contains(t) {
        choose|i: int|
            0 <= i < v.custom.len() && #[trigger] v.custom[i] == t && forall|j: int|
                0 <= j < i ==> key(#[trigger] v.custom[j]) != key(t)
    } else {
        rest.len() as int
    };
    assert(after.custom[at] == t);
    assert(all[at] == row);
    assert forall|j: int| 0 <= j < at implies key(#[trigger] all[j].token) != key(t) by {
        assert(all[j].token == after.custom[j]);
        if !v.custom.contains(t) {
            assert(key(rest[j]) != key(t));
        } else {
            assert(key(v.custom[j]) != key(t));
        }
    }
    lemma_first_is_served(all, t.chain_id, at);
}

/// The first row of a key is served.
proof fn lemma_first_is_served(all: Seq<RowView>, chain_id: u64, at: int)
    requires
        0 <= at < all.len(),
        is_served(all, at, chain_id, None),
    ensures
        served(all, chain_id, None).contains(all[at]),
    decreases all.len(),
{
    let prev = all.drop_last();
    let rows = served(all, chain_id, None);
    let before = served(prev, chain_id, None);
    if at < prev.len() {
        assert forall|j: int| 0 <= j < at implies key(#[trigger] prev[j].token) != key(
            prev[at].token,
        ) by {
            assert(prev[j] == all[j]);
        }
        lemma_first_is_served(prev, chain_id, at);
        assert(rows[before.index_of(all[at])] == all[at]);
    } else {
        assert(rows[before.len() as int] == all[at]);
    }
}

} // verus!
