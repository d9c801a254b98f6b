//! What holds whatever a caller does: of every mutation, in every state.
use vstd::prelude::*;

use crate::catalogue::labelled;
use crate::config::{ConfigSource, ConfigView, RecordView};
use crate::laws::edits::{
    distinct_keys, law_add_keeps_keys_apart, law_add_replaces, law_merge_keeps_keys_apart,
    law_remove_keeps_keys_apart,
};
use crate::model::{downloads, sources_of, FetchedView, ListView, PlanView};
use crate::module::{record_moved, MutationView, OutcomeView};
use crate::proxy::RouteView;
use crate::store::{DirView, WriteView};
use crate::text::normalized;
use crate::token::{parsed, TokenErrorView, TokenSource, TokenView};

verus! {

/// The source of the configuration moves one way only, whatever is called.
pub proof fn law_source_never_falls(m: MutationView, v: ListView)
    ensures
        m.apply(v).config_source.rank() >= v.config_source.rank(),
{
}

/// What somebody configured is changed by nothing but another edit of the configuration.
pub proof fn law_only_an_edit_moves_the_configuration(m: MutationView, v: ListView)
    ensures
        record_moved(v, m.apply(v)) ==> m is Configure || m is InitDefaults,
        m is InitDefaults && v.config_source != ConfigSource::Unset ==> m.apply(v) == v,
        record_moved(v, m.apply(v)) <==> m.outcome(v) == OutcomeView::Configured(true)
            || m.outcome(v) == OutcomeView::Defaulted(true),
{
}

/// The shipped list is changed by nothing, and no write is made without a directory.
pub proof fn law_shipped_list_stays(m: MutationView, v: ListView)
    ensures
        m.apply(v).shipped == v.shipped,
        m.apply(v).backed == v.backed,
        !v.backed ==> m.apply(v).writes == v.writes,
{
}

/// A refresh replaces the downloaded tokens and what is said of the URLs, and nothing else.
pub proof fn law_refresh_replaces_the_downloaded_only(
    v: ListView,
    plan: PlanView,
    fetched: Result<Seq<FetchedView>, Seq<char>>,
)
    ensures
        v.refreshed(plan, fetched).custom == v.custom,
        v.refreshed(plan, fetched).enabled == v.enabled,
        v.refreshed(plan, fetched).embedded() == v.embedded(),
        v.refreshed(plan, fetched).config == v.config,
        v.refreshed(plan, fetched).config_source == v.config_source,
{
}

proof fn lemma_no_downloads(lists: Seq<FetchedView>, n: nat)
    requires
        n <= lists.len(),
        forall|i: int| 0 <= i < lists.len() ==> (#[trigger] lists[i]) is Err,
    ensures
        downloads(lists, n).len() == 0,
    decreases n,
{
    if n > 0 {
        lemma_no_downloads(lists, (n - 1) as nat);
        assert(lists[n - 1] is Err);
    }
}

/// A refresh in which every URL fails degrades to the user's own tokens and the shipped list,
/// rather than to nothing, and is no error.
pub proof fn law_failed_refresh_leaves_the_floor(
    v: ListView,
    plan: PlanView,
    lists: Seq<FetchedView>,
)
    requires
        !plan.proxy.closed(),
        forall|i: int| 0 <= i < lists.len() ==> (#[trigger] lists[i]) is Err,
    ensures
        v.refreshed(plan, Ok(lists)).catalogue() == labelled(v.custom, TokenSource::Custom)
            + labelled(v.embedded(), TokenSource::Embedded),
        v.refresh_reply(plan, Ok(lists)) == Ok::<nat, TokenErrorView>(0),
        forall|i: int|
            0 <= i < v.refreshed(plan, Ok(lists)).sources.len() ==> !(#[trigger] v.refreshed(
                plan,
                Ok(lists),
            ).sources[i]).ok,
{
    let n = sources_of(plan.list_urls, lists).len();
    lemma_no_downloads(lists, n);
    let after = v.refreshed(plan, Ok(lists));
    assert(after.downloaded =~= Seq::empty());
    assert(after.catalogue() =~= labelled(v.custom, TokenSource::Custom) + labelled(
        v.embedded(),
        TokenSource::Embedded,
    ));
    assert forall|i: int| 0 <= i < after.sources.len() implies !(#[trigger] after.sources[i]).ok by {
        assert(lists[i] is Err);
    }
}

/// After a refresh that fetched something for each URL there is a status row for each URL, in
/// order, which says whether its list could be had and how many tokens it holds.
pub proof fn law_a_status_for_every_url(
    v: ListView,
    plan: PlanView,
    lists: Seq<FetchedView>,
    i: int,
)
    requires
        !plan.proxy.closed(),
        lists.len() == plan.list_urls.len(),
        0 <= i < lists.len(),
    ensures
        ({
            let sources = v.refreshed(plan, Ok(lists)).sources;
            &&& sources.len() == plan.list_urls.len()
            &&& sources[i].url == plan.list_urls[i]
            &&& sources[i].ok <==> lists[i] is Ok
            &&& sources[i].ok <==> sources[i].error is None
            &&& lists[i] matches Ok((name, tokens)) ==> sources[i].name == name
                && sources[i].token_count == tokens.len() as usize
            &&& lists[i] matches Err(e) ==> sources[i].error == Some(e.message())
        }),
{
}

/// The built-in defaults need no network: nothing schedules a fetch, a refresh has nothing to
/// fetch, and whatever is said to have been fetched it leaves the user's own tokens and the shipped
/// list.
pub proof fn law_defaults_need_no_network(v: ListView, lists: Seq<FetchedView>)
    requires
        v.config_source == ConfigSource::Unset,
    ensures
        v.defaulted().config.refresh_secs == 0,
        v.defaulted().plan().list_urls.len() == 0,
        v.defaulted().refresh_reply(v.defaulted().plan(), Ok(lists)) == Ok::<nat, TokenErrorView>(0),
        v.defaulted().refreshed(v.defaulted().plan(), Ok(lists)).catalogue() == labelled(
            v.custom,
            TokenSource::Custom,
        ) + labelled(v.shipped, TokenSource::Embedded),
{
    let after = v.defaulted().refreshed(v.defaulted().plan(), Ok(lists));
    assert(after.downloaded =~= Seq::empty());
    assert(after.catalogue() =~= labelled(v.custom, TokenSource::Custom) + labelled(
        v.shipped,
        TokenSource::Embedded,
    ));
}

/// Where a proxy is required and none is set, nothing is fetched in the clear: there is no way to
/// fetch, and a refresh is refused with a proxy error and changes nothing, whatever is said to have
/// been fetched.
pub proof fn law_fails_closed(
    v: ListView,
    plan: PlanView,
    fetched: Result<Seq<FetchedView>, Seq<char>>,
)
    ensures
        plan.proxy.required ==> plan.proxy.route() != Ok::<RouteView, TokenErrorView>(
            RouteView::Clear,
        ),
        plan.proxy.closed() ==> {
            &&& v.refreshed(plan, fetched) == v
            &&& v.refresh_reply(plan, fetched) is Err
            &&& v.refresh_reply(plan, fetched)->Err_0 is Proxy
        },
{
}

/// A refresh fails with a proxy error or not at all, and one that fails changes nothing: what was
/// downloaded before is still served. A list that could not be had is told in its status row only.
pub proof fn law_failed_refresh_is_a_proxy_error(
    v: ListView,
    plan: PlanView,
    fetched: Result<Seq<FetchedView>, Seq<char>>,
)
    ensures
        v.refresh_reply(plan, fetched) is Err <==> plan.proxy.closed() || fetched is Err,
        v.refresh_reply(plan, fetched) matches Err(e) ==> e is Proxy && v.refreshed(plan, fetched)
            == v,
{
}

/// What is written is what moved, and only where something moved: each mutation asks for at most
/// one write, of the file whose contents it changed, and the write holds the new contents.
pub proof fn law_writes_what_moved(m: MutationView, v: ListView)
    requires
        v.backed,
    ensures
        ({
            let after = m.apply(v);
            after.writes == if record_moved(v, after) {
                v.writes.push(
                    WriteView::ListConfig(
                        RecordView { source: after.config_source, config: after.config },
                    ),
                )
            } else if after.downloaded != v.downloaded {
                v.writes.push(WriteView::TokenCache(after.downloaded))
            } else if after.custom != v.custom {
                v.writes.push(WriteView::CustomTokens(after.custom))
            } else if after.enabled != v.enabled {
                v.writes.push(WriteView::EnabledTokens(after.enabled))
            } else {
                v.writes
            }
        }),
{
    match m {
        MutationView::AddCustomToken(t) => {
            law_add_replaces(v.custom, t);
        },
        MutationView::SetTokenEnabled(c, a, true) => {
            if let Some(t) = v.listed(c, a) {
                law_add_replaces(v.enabled, t);
            }
        },
        _ => {},
    }
}

/// What a list keeps across a restart is the same in both.
pub open spec fn same_stored(a: ListView, b: ListView) -> bool {
    &&& a.config == b.config
    &&& a.config_source == b.config_source
    &&& a.downloaded == b.downloaded
    &&& a.custom == b.custom
    &&& a.enabled == b.enabled
}

/// The directory, once the pending writes are made, opens as what the list holds.
pub open spec fn persisted(dir: DirView, v: ListView) -> bool {
    same_stored(ListView::opened(dir.written_all(v.writes), v.shipped), v)
}

proof fn lemma_written_push(dir: DirView, ws: Seq<WriteView>, w: WriteView)
    ensures
        dir.written_all(ws.push(w)) == dir.written_all(ws).written(w),
{
    assert(ws.push(w).drop_last() =~= ws);
}

/// A list that is opened from a directory is persisted in it.
pub proof fn law_opened_is_persisted(dir: DirView, shipped: Seq<TokenView>)
    ensures
        persisted(dir, ListView::opened(dir, shipped)),
        ListView::opened(dir, shipped).backed,
{
}

/// What is stored is read back: whatever is called, the directory with the writes made to it opens
/// as the list that was closed. So settings and tokens outlive a restart.
pub proof fn law_stored_is_read_back(dir: DirView, m: MutationView, v: ListView)
    requires
        v.backed,
        persisted(dir, v),
    ensures
        persisted(dir, m.apply(v)),
        m.apply(v).backed,
{
    let after = m.apply(v);
    law_writes_what_moved(m, v);
    law_source_never_falls(m, v);
    if record_moved(v, after) {
        lemma_written_push(
            dir,
            v.writes,
            WriteView::ListConfig(
                RecordView { source: after.config_source, config: after.config },
            ),
        );
    } else if after.downloaded != v.downloaded {
        lemma_written_push(dir, v.writes, WriteView::TokenCache(after.downloaded));
    } else if after.custom != v.custom {
        lemma_written_push(dir, v.writes, WriteView::CustomTokens(after.custom));
    } else if after.enabled != v.enabled {
        lemma_written_push(dir, v.writes, WriteView::EnabledTokens(after.enabled));
    }
}

/// Making the pending writes loses nothing.
pub proof fn law_writes_can_be_made_at_any_time(dir: DirView, v: ListView)
    requires
        persisted(dir, v),
    ensures
        persisted(dir.written_all(v.writes), ListView { writes: Seq::empty(), ..v }),
{
}

/// The defaults are applied once across restarts too: a list that was defaulted opens as one that
/// declines to be defaulted again.
pub proof fn law_defaults_apply_once_across_restarts(dir: DirView, v: ListView)
    requires
        v.backed,
        persisted(dir, v),
    ensures
        ({
            let after = v.defaulted();
            let again = ListView::opened(dir.written_all(after.writes), v.shipped);
            again.defaulted() == again && again.config_source == after.config_source
        }),
{
    law_stored_is_read_back(dir, MutationView::InitDefaults, v);
}

/// A configuration that reads as a bare one only was written by somebody: it opens as theirs, and
/// is never defaulted.
pub proof fn law_bare_configuration_is_external(dir: DirView, shipped: Seq<TokenView>, c: ConfigView)
    requires
        dir.list_config matches Some(s) && s.record is None && s.bare == Some(c),
    ensures
        ListView::opened(dir, shipped).config == c,
        ListView::opened(dir, shipped).config_source == ConfigSource::External,
        ListView::opened(dir, shipped).defaulted() == ListView::opened(dir, shipped),
{
}

/// A configuration file that exists is never defaulted over, whatever it holds: the list opens as
/// configured, and applying the defaults changes and writes nothing. What the file cannot tell is as
/// the defaults have it.
pub proof fn law_existing_configuration_is_never_defaulted(dir: DirView, shipped: Seq<TokenView>)
    requires
        dir.list_config is Some,
    ensures
        ListView::opened(dir, shipped).config_source != ConfigSource::Unset,
        ListView::opened(dir, shipped).defaulted() == ListView::opened(dir, shipped),
        dir.list_config->0.record is None && dir.list_config->0.bare is None ==> {
            &&& ListView::opened(dir, shipped).config == ConfigView::defaults()
            &&& ListView::opened(dir, shipped).config_source == ConfigSource::External
        },
{
}

/// A list is unconfigured exactly where nothing was ever set: it opens so where there is no
/// configuration file.
pub proof fn law_unconfigured_where_there_is_no_file(dir: DirView, shipped: Seq<TokenView>)
    ensures
        (ListView::opened(dir, shipped).config_source == ConfigSource::Unset) == (dir.list_config
            is None),
{
}

/// Where nothing has been set, the configuration in force is the built-in one: so of a new list, so
/// of one that is opened, and so after any mutation, and once the pending writes are taken, if it was
/// so before.
pub proof fn law_unset_comes_with_the_defaults(
    dir: DirView,
    shipped: Seq<TokenView>,
    m: MutationView,
    v: ListView,
)
    ensures
        ListView::fresh(shipped).defaults_while_unset(),
        ListView::opened(dir, shipped).defaults_while_unset(),
        v.defaults_while_unset() ==> m.apply(v).defaults_while_unset(),
        v.defaults_while_unset() ==> (ListView {
            writes: Seq::empty(),
            ..v
        }).defaults_while_unset(),
{
}

/// No chain and address occurs twice among the user's tokens, nor among the snapshots, if none did
/// before, whatever is called.
pub proof fn law_keys_stay_apart(m: MutationView, v: ListView)
    requires
        distinct_keys(v.custom),
        distinct_keys(v.enabled),
    ensures
        distinct_keys(m.apply(v).custom),
        distinct_keys(m.apply(v).enabled),
{
    match m {
        MutationView::AddCustomToken(t) => {
            law_add_keeps_keys_apart(v.custom, t);
        },
        MutationView::RemoveCustomToken(c, a) => {
            law_remove_keeps_keys_apart(v.custom, (c, normalized(a)));
        },
        MutationView::ImportCustomTokens(doc, replace) => {
            if let Ok((_, tokens)) = parsed(doc) {
                law_merge_keeps_keys_apart(
                    if replace {
                        Seq::empty()
                    } else {
                        v.custom
                    },
                    tokens,
                );
            }
        },
        MutationView::SetTokenEnabled(c, a, enable) => {
            if let Some(t) = v.listed(c, a) {
                law_add_keeps_keys_apart(v.enabled, t);
            }
            law_remove_keeps_keys_apart(v.enabled, (c, normalized(a)));
        },
        _ => {},
    }
}

} // verus!
