//! What a refresh fetches and keeps.
use vstd::prelude::*;

use crate::model::{downloads, sources_of, FetchedView, ListView, PlanView};
use crate::proxy::{ProxyView, RouteView};
use crate::token::{SourceView, TokenErrorView, TokenView};

verus! {

/// A plan may fetch: it has a proxy, or needs none.
pub open spec fn may_fetch(plan: PlanView) -> bool {
    plan.proxy.proxy is Some || !plan.proxy.required
}

/// How many tokens the first `n` fetched lists hold, those that could be had.
pub open spec fn held_by(lists: Seq<FetchedView>, n: int) -> int
    decreases n,
{
    if n <= 0 {
        0
    } else {
        held_by(lists, n - 1) + match lists[n - 1] {
            Ok((_, tokens)) => tokens.len() as int,
            Err(_) => 0,
        }
    }
}

/// How many tokens the status rows of the URLs that could be fetched count.
pub open spec fn counted_by(sources: Seq<SourceView>, n: int) -> int
    decreases n,
{
    if n <= 0 {
        0
    } else {
        counted_by(sources, n - 1) + if sources[n - 1].ok {
            sources[n - 1].token_count as int
        } else {
            0
        }
    }
}

proof fn lemma_downloads_len(lists: Seq<FetchedView>, n: nat)
    ensures
        downloads(lists, n).len() == held_by(lists, n as int),
    decreases n,
{
    if n > 0 {
        lemma_downloads_len(lists, (n - 1) as nat);
    }
}

proof fn lemma_downloads_place(lists: Seq<FetchedView>, n: nat, i: int, j: int)
    requires
        0 <= i < n,
        lists[i] is Ok,
        0 <= j < (lists[i]->Ok_0).1.len(),
    ensures
        0 <= held_by(lists, i) + j < downloads(lists, n).len(),
        downloads(lists, n)[held_by(lists, i) + j] == (lists[i]->Ok_0).1[j],
    decreases n,
{
    lemma_downloads_len(lists, (n - 1) as nat);
    lemma_downloads_len(lists, n);
    if i < n - 1 {
        lemma_downloads_place(lists, (n - 1) as nat, i, j);
    } else {
        assert(downloads(lists, (n - 1) as nat).len() == held_by(lists, i));
    }
}

proof fn lemma_downloads_from(lists: Seq<FetchedView>, n: nat, p: int) -> (r: (int, int))
    requires
        0 <= p < downloads(lists, n).len(),
    ensures
        0 <= r.0 < n,
        lists[r.0] is Ok,
        0 <= r.1 < (lists[r.0]->Ok_0).1.len(),
        downloads(lists, n)[p] == (lists[r.0]->Ok_0).1[r.1],
    decreases n,
{
    let before = downloads(lists, (n - 1) as nat);
    if p < before.len() {
        lemma_downloads_from(lists, (n - 1) as nat, p)
    } else {
        (n - 1, p - before.len())
    }
}

/// After a refresh that may fetch, a token is downloaded exactly when some list that could be
/// fetched holds it: no list takes the place of another one.
pub proof fn law_every_fetched_list_is_kept(
    v: ListView,
    plan: PlanView,
    lists: Seq<FetchedView>,
    t: TokenView,
)
    requires
        may_fetch(plan),
        lists.len() == plan.list_urls.len(),
    ensures
        v.refreshed(plan, Ok(lists)).downloaded.contains(t) <==> exists|i: int|
            0 <= i < lists.len() && ((#[trigger] lists[i]) matches Ok((_, ts)) && ts.contains(t)),
{
    let n = lists.len();
    let all = v.refreshed(plan, Ok(lists)).downloaded;
    assert(sources_of(plan.list_urls, lists).len() == n);
    assert(all == downloads(lists, n));
    if all.contains(t) {
        let (i, j) = lemma_downloads_from(lists, n, all.index_of(t));
        assert((lists[i]->Ok_0).1.contains(t));
    }
    if exists|i: int|
        0 <= i < lists.len() && ((#[trigger] lists[i]) matches Ok((_, ts)) && ts.contains(t)) {
        let i = choose|i: int|
            0 <= i < lists.len() && ((#[trigger] lists[i]) matches Ok((_, ts)) && ts.contains(t));
        let ts = (lists[i]->Ok_0).1;
        lemma_downloads_place(lists, n, i, ts.index_of(t));
    }
}

/// The fetched lists follow each other in the order of their URLs, each one whole and as it was
/// fetched, and there is nothing else.
pub proof fn law_fetched_lists_follow_each_other(
    v: ListView,
    plan: PlanView,
    lists: Seq<FetchedView>,
    i: int,
    j: int,
)
    requires
        may_fetch(plan),
        lists.len() == plan.list_urls.len(),
        0 <= i < lists.len(),
        lists[i] is Ok,
        0 <= j < (lists[i]->Ok_0).1.len(),
    ensures
        v.refreshed(plan, Ok(lists)).downloaded.len() == held_by(lists, lists.len() as int),
        v.refreshed(plan, Ok(lists)).downloaded[held_by(lists, i) + j] == (lists[i]->Ok_0).1[j],
{
    let n = lists.len();
    assert(sources_of(plan.list_urls, lists).len() == n);
    lemma_downloads_len(lists, n);
    lemma_downloads_place(lists, n, i, j);
}

proof fn lemma_counted(urls: Seq<Seq<char>>, lists: Seq<FetchedView>, n: int)
    requires
        0 <= n <= lists.len(),
        lists.len() == urls.len(),
        forall|i: int|
            0 <= i < lists.len() ==> ((#[trigger] lists[i]) matches Ok((_, ts)) ==> ts.len()
                <= usize::MAX),
    ensures
        counted_by(sources_of(urls, lists), n) == held_by(lists, n),
    decreases n,
{
    if n > 0 {
        lemma_counted(urls, lists, n - 1);
        assert(lists[n - 1] matches Ok((_, ts)) ==> ts.len() <= usize::MAX);
    }
}

/// A refresh answers with how many tokens are downloaded, and that is what the status rows of the
/// URLs that could be fetched add up to.
pub proof fn law_downloads_add_up(v: ListView, plan: PlanView, lists: Seq<FetchedView>)
    requires
        may_fetch(plan),
        lists.len() == plan.list_urls.len(),
        forall|i: int|
            0 <= i < lists.len() ==> ((#[trigger] lists[i]) matches Ok((_, ts)) ==> ts.len()
                <= usize::MAX),
    ensures
        ({
            let after = v.refreshed(plan, Ok(lists));
            &&& after.sources.len() == plan.list_urls.len()
            &&& after.downloaded.len() == counted_by(after.sources, after.sources.len() as int)
            &&& v.refresh_reply(plan, Ok(lists)) == Ok::<nat, TokenErrorView>(after.downloaded.len())
        }),
{
    let n = lists.len();
    assert(sources_of(plan.list_urls, lists).len() == n);
    lemma_downloads_len(lists, n);
    lemma_counted(plan.list_urls, lists, n as int);
}

/// Where fewer lists were fetched than there are URLs, or more, those that have both are taken and
/// the rest is as if it had not been there.
pub proof fn law_lists_go_with_their_urls(v: ListView, plan: PlanView, lists: Seq<FetchedView>)
    ensures
        ({
            let n = if lists.len() < plan.list_urls.len() {
                lists.len() as int
            } else {
                plan.list_urls.len() as int
            };
            let cut = PlanView { list_urls: plan.list_urls.take(n), ..plan };
            &&& v.refreshed(plan, Ok(lists)) == v.refreshed(cut, Ok(lists.take(n)))
            &&& v.refresh_reply(plan, Ok(lists)) == v.refresh_reply(cut, Ok(lists.take(n)))
        }),
{
    let n = if lists.len() < plan.list_urls.len() {
        lists.len() as int
    } else {
        plan.list_urls.len() as int
    };
    lemma_downloads_prefix(lists, n as nat, n as nat);
    assert(sources_of(plan.list_urls, lists) =~= sources_of(
        plan.list_urls.take(n),
        lists.take(n),
    ));
}

proof fn lemma_downloads_prefix(lists: Seq<FetchedView>, m: nat, n: nat)
    requires
        m <= n <= lists.len(),
    ensures
        downloads(lists, m) == downloads(lists.take(n as int), m),
    decreases m,
{
    if m > 0 {
        lemma_downloads_prefix(lists, (m - 1) as nat, n);
        assert(lists.take(n as int)[m - 1] == lists[m - 1]);
    }
}

/// A refresh is planned by the configuration in force: its URLs in order, its proxy, whether that is
/// required, and its timeout.
pub proof fn law_the_plan_is_the_configuration(v: ListView)
    ensures
        v.plan().list_urls == v.config.list_urls,
        v.plan().proxy.proxy == v.config.proxy,
        v.plan().proxy.required == v.config.proxy_required,
        v.plan().proxy.timeout_secs == v.config.timeout_secs,
{
}

/// A fetch goes through the proxy where one is set, in the clear only where none is set and none is
/// required, and nowhere else.
pub proof fn law_the_route_is_the_proxy(p: ProxyView)
    ensures
        match p.proxy {
            Some(address) => p.route() == Ok::<RouteView, TokenErrorView>(
                RouteView::Through(address),
            ),
            None if !p.required => p.route() == Ok::<RouteView, TokenErrorView>(RouteView::Clear),
            None => p.route() is Err && p.route()->Err_0 is Proxy,
        },
        p.closed() == (p.required && p.proxy is None),
{
}

/// The words of a fetch that could not begin are those of the error.
pub proof fn law_why_a_fetch_could_not_begin(v: ListView, plan: PlanView, words: Seq<char>)
    requires
        may_fetch(plan),
    ensures
        v.refresh_reply(plan, Err(words)) == Err::<nat, TokenErrorView>(
            TokenErrorView::Proxy(words),
        ),
        v.refreshed(plan, Err(words)) == v,
{
}

} // verus!
