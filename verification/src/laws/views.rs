//! A view leaves nothing out: two values that say the same are the same field by field, so that
//! what is stated over views is stated of the values.
use vstd::prelude::*;

use crate::config::{ConfigRecord, ListConfig, ListConfigWire};
use crate::events::{event_views, EventLog, ModuleEvent, TokenListModuleEvents};
use crate::json::strings_view;
use crate::module::{ModuleError, Mutation, Outcome, Status};
use crate::offered::{enabled_views, EnabledTokenRow};
use crate::proxy::{route_view, ProxyConfig, Route};
use crate::store::{opt_views, write_views, StoreDir, StoreWrite, StoredConfig};
use crate::token::{
    doc_view, list_view, opt_text, row_views, source_views, texts, views, ListSource, RawToken,
    Token, TokenError, TokenListDoc, TokenRow,
};
use crate::tokens::{count_view, fetched_view, Fetched, RefreshPlan};

verus! {

/// Two optional strings have the same text, or neither is there.
pub open spec fn same_opt(a: Option<String>, b: Option<String>) -> bool {
    (a is Some) == (b is Some) && (a is Some ==> a->0@ == b->0@)
}

/// Two lists of strings have the same texts in the same order.
pub open spec fn same_strings(a: Seq<String>, b: Seq<String>) -> bool {
    a.len() == b.len() && forall|i: int| 0 <= i < a.len() ==> (#[trigger] a[i])@ == b[i]@
}

/// Two tokens are the same in every field.
pub open spec fn same_token(a: Token, b: Token) -> bool {
    &&& a.chain_id == b.chain_id
    &&& a.address@ == b.address@
    &&& a.name@ == b.name@
    &&& a.symbol@ == b.symbol@
    &&& a.decimals == b.decimals
    &&& same_opt(a.logo_uri, b.logo_uri)
}

/// Two configurations are the same in every key.
pub open spec fn same_config(a: ListConfig, b: ListConfig) -> bool {
    &&& same_strings(a.list_urls@, b.list_urls@)
    &&& same_opt(a.proxy, b.proxy)
    &&& a.proxy_required == b.proxy_required
    &&& a.refresh_secs == b.refresh_secs
    &&& a.timeout_secs == b.timeout_secs
    &&& a.use_embedded_list == b.use_embedded_list
}

/// Two lists hold the same tokens in the same order.
pub open spec fn same_list(a: Seq<Token>, b: Seq<Token>) -> bool {
    a.len() == b.len() && forall|i: int| 0 <= i < a.len() ==> same_token(#[trigger] a[i], b[i])
}

/// Optional strings say the same exactly when they are the same.
pub proof fn law_view_of_an_optional_string(a: Option<String>, b: Option<String>)
    ensures
        opt_text(a) == opt_text(b) <==> same_opt(a, b),
{
}

/// Lists of strings say the same exactly when they are the same.
pub proof fn law_view_of_strings(a: Seq<String>, b: Seq<String>)
    ensures
        texts(a) == texts(b) <==> same_strings(a, b),
{
    if texts(a) == texts(b) {
        assert(texts(a).len() == texts(b).len());
        assert forall|i: int| 0 <= i < a.len() implies (#[trigger] a[i])@ == b[i]@ by {
            assert(texts(a)[i] == texts(b)[i]);
        }
    }
    if same_strings(a, b) {
        assert(texts(a) =~= texts(b));
    }
}

/// Tokens say the same exactly when they are the same.
pub proof fn law_view_of_a_token(a: Token, b: Token)
    ensures
        a@ == b@ <==> same_token(a, b),
        a@.chain_id == a.chain_id,
        a@.address == a.address@,
        a@.name == a.name@,
        a@.symbol == a.symbol@,
        a@.decimals == a.decimals,
        (a@.logo_uri is Some) == (a.logo_uri is Some),
        a.logo_uri is Some ==> a@.logo_uri->0 == a.logo_uri->0@,
{
}

/// An entry of a document is viewed as the token that it describes.
pub proof fn law_view_of_an_entry(t: RawToken)
    ensures
        t@.chain_id == t.chain_id,
        t@.address == t.address@,
        t@.name == t.name@,
        t@.symbol == t.symbol@,
        t@.decimals == t.decimals,
        (t@.logo_uri is Some) == (t.logo_uri is Some),
        t.logo_uri is Some ==> t@.logo_uri->0 == t.logo_uri->0@,
{
}

/// A document is viewed as its name and its entries, in order.
pub proof fn law_view_of_a_document(d: TokenListDoc, i: int)
    requires
        0 <= i < d.tokens@.len(),
    ensures
        d@.name == d.name@,
        d@.tokens.len() == d.tokens@.len(),
        d@.tokens[i] == d.tokens@[i]@,
{
}

/// What reading a text came to is viewed as the document, or as the words of the error.
pub proof fn law_view_of_a_reading(doc: Result<TokenListDoc, String>, list: Fetched)
    ensures
        (doc_view(doc) is Ok) == (doc is Ok),
        doc matches Ok(d) ==> doc_view(doc)->Ok_0 == d@,
        doc matches Err(e) ==> doc_view(doc)->Err_0 == e@,
        (list_view(list) is Ok) == (list is Ok),
        list matches Ok((name, tokens)) ==> (list_view(list)->Ok_0).0 == name@ && (list_view(
            list,
        )->Ok_0).1 == views(tokens@),
        list matches Err(e) ==> list_view(list)->Err_0 == e@,
{
}

/// Lists of tokens say the same exactly when they hold the same tokens in the same order.
pub proof fn law_view_of_tokens(a: Seq<Token>, b: Seq<Token>)
    ensures
        views(a) == views(b) <==> same_list(a, b),
        views(a).len() == a.len(),
        forall|i: int| 0 <= i < a.len() ==> #[trigger] views(a)[i] == a[i]@,
{
    if views(a) == views(b) {
        assert(views(a).len() == views(b).len());
        assert forall|i: int| 0 <= i < a.len() implies same_token(#[trigger] a[i], b[i]) by {
            assert(views(a)[i] == views(b)[i]);
            law_view_of_a_token(a[i], b[i]);
        }
    }
    if same_list(a, b) {
        assert forall|i: int| 0 <= i < a.len() implies views(a)[i] == views(b)[i] by {
            assert(same_token(a[i], b[i]));
            law_view_of_a_token(a[i], b[i]);
        }
        assert(views(a) =~= views(b));
    }
}

/// Rows are viewed one by one, each as its token and its bucket.
pub proof fn law_view_of_rows(rows: Seq<TokenRow>, i: int)
    requires
        0 <= i < rows.len(),
    ensures
        row_views(rows).len() == rows.len(),
        row_views(rows)[i].token == rows[i].token@,
        row_views(rows)[i].source == rows[i].source,
{
}

/// Enabled rows are viewed one by one, each as its token and whether it is resolved.
pub proof fn law_view_of_enabled_rows(rows: Seq<EnabledTokenRow>, i: int)
    requires
        0 <= i < rows.len(),
    ensures
        enabled_views(rows).len() == rows.len(),
        enabled_views(rows)[i].token == rows[i].token@,
        enabled_views(rows)[i].resolved == rows[i].resolved,
{
}

/// Status rows are viewed one by one, field by field.
pub proof fn law_view_of_status_rows(sources: Seq<ListSource>, i: int)
    requires
        0 <= i < sources.len(),
    ensures
        source_views(sources).len() == sources.len(),
        source_views(sources)[i].url == sources[i].url@,
        source_views(sources)[i].name == sources[i].name@,
        source_views(sources)[i].token_count == sources[i].token_count,
        source_views(sources)[i].ok == sources[i].ok,
        (source_views(sources)[i].error is Some) == (sources[i].error is Some),
        sources[i].error is Some ==> source_views(sources)[i].error->0 == sources[i].error->0@,
{
}

/// Errors say the same exactly when they are of one kind and have the same words.
pub proof fn law_view_of_an_error(a: TokenError, b: TokenError)
    ensures
        a@ == b@ <==> match (a, b) {
            (TokenError::Proxy(x), TokenError::Proxy(y)) => x@ == y@,
            (TokenError::Http(x), TokenError::Http(y)) => x@ == y@,
            (TokenError::Parse(x), TokenError::Parse(y)) => x@ == y@,
            (TokenError::Io(x), TokenError::Io(y)) => x@ == y@,
            _ => false,
        },
        (a@ is Proxy) == (a is Proxy),
        (a@ is Http) == (a is Http),
        (a@ is Parse) == (a is Parse),
        (a@ is Io) == (a is Io),
{
}

/// Configurations say the same exactly when they are the same in every key.
pub proof fn law_view_of_a_configuration(a: ListConfig, b: ListConfig)
    ensures
        a@ == b@ <==> same_config(a, b),
        a@.list_urls == texts(a.list_urls@),
        a@.proxy == opt_text(a.proxy),
        a@.proxy_required == a.proxy_required,
        a@.refresh_secs == a.refresh_secs,
        a@.timeout_secs == a.timeout_secs,
        a@.use_embedded_list == a.use_embedded_list,
{
    law_view_of_strings(a.list_urls@, b.list_urls@);
    law_view_of_an_optional_string(a.proxy, b.proxy);
}

/// An edit is viewed key by key; a key that is left out is left out of the view.
pub proof fn law_view_of_an_edit(w: ListConfigWire)
    ensures
        (w@.list_urls is Some) == (w.list_urls is Some),
        w.list_urls is Some ==> w@.list_urls->0 == texts(w.list_urls->0@),
        (w@.proxy is Some) == (w.proxy is Some),
        w.proxy is Some ==> w@.proxy->0 == opt_text(w.proxy->0),
        w@.proxy_required == w.proxy_required,
        w@.refresh_secs == w.refresh_secs,
        w@.timeout_secs == w.timeout_secs,
        w@.use_embedded_list == w.use_embedded_list,
{
}

/// A record is viewed as its source and its configuration.
pub proof fn law_view_of_a_record(r: ConfigRecord)
    ensures
        r@.source == r.source,
        r@.config == r.config@,
{
}

/// What a directory held is viewed file by file; an absent file is absent from the view.
pub proof fn law_view_of_a_directory(dir: StoreDir, s: StoredConfig)
    ensures
        (dir@.list_config is Some) == (dir.list_config is Some),
        dir.list_config is Some ==> dir@.list_config->0 == dir.list_config->0@,
        dir@.token_cache == opt_views(dir.token_cache),
        dir@.custom_tokens == opt_views(dir.custom_tokens),
        dir@.enabled_tokens == opt_views(dir.enabled_tokens),
        (s@.record is Some) == (s.record is Some),
        s.record is Some ==> s@.record->0 == s.record->0@,
        (s@.bare is Some) == (s.bare is Some),
        s.bare is Some ==> s@.bare->0 == s.bare->0@,
{
}

/// An optional list is viewed as its tokens, where it is there.
pub proof fn law_view_of_an_optional_list(tokens: Option<Vec<Token>>)
    ensures
        (opt_views(tokens) is Some) == (tokens is Some),
        tokens is Some ==> opt_views(tokens)->0 == views(tokens->0@),
{
}

/// Writes are viewed one by one, each as its file and what it is to hold.
pub proof fn law_view_of_writes(writes: Seq<StoreWrite>, i: int)
    requires
        0 <= i < writes.len(),
    ensures
        write_views(writes).len() == writes.len(),
        write_views(writes)[i] == writes[i]@,
        (writes[i]@ is ListConfig) == (writes[i] is ListConfig),
        (writes[i]@ is TokenCache) == (writes[i] is TokenCache),
        (writes[i]@ is CustomTokens) == (writes[i] is CustomTokens),
        (writes[i]@ is EnabledTokens) == (writes[i] is EnabledTokens),
        writes[i] is ListConfig ==> writes[i]@->ListConfig_0 == writes[i]->ListConfig_0@,
        writes[i] is TokenCache ==> writes[i]@->TokenCache_0 == views(writes[i]->TokenCache_0@),
        writes[i] is CustomTokens ==> writes[i]@->CustomTokens_0 == views(
            writes[i]->CustomTokens_0@,
        ),
        writes[i] is EnabledTokens ==> writes[i]@->EnabledTokens_0 == views(
            writes[i]->EnabledTokens_0@,
        ),
{
}

/// A plan is viewed as its URLs and its proxy settings, and a route as where it goes.
pub proof fn law_view_of_a_plan(
    plan: RefreshPlan,
    p: ProxyConfig,
    way: Route,
    asked: Result<Route, TokenError>,
)
    ensures
        plan@.list_urls == texts(plan.list_urls@),
        plan@.proxy == plan.proxy@,
        p@.proxy == opt_text(p.proxy),
        p@.required == p.required,
        p@.timeout_secs == p.timeout_secs,
        (way@ is Through) == (way is Through),
        way is Through ==> way@->Through_0 == way->Through_0@,
        (route_view(asked) is Ok) == (asked is Ok),
        asked is Ok ==> route_view(asked)->Ok_0 == asked->Ok_0@,
        asked is Err ==> route_view(asked)->Err_0 == asked->Err_0@,
{
}

/// What was fetched is viewed list by list, or as why the fetch could not begin; a count as its
/// number, or as its error.
pub proof fn law_view_of_what_was_fetched(
    fetched: Result<Vec<Fetched>, String>,
    count: Result<usize, TokenError>,
)
    ensures
        (fetched_view(fetched) is Ok) == (fetched is Ok),
        fetched is Err ==> fetched_view(fetched)->Err_0 == fetched->Err_0@,
        fetched is Ok ==> fetched_view(fetched)->Ok_0.len() == fetched->Ok_0@.len(),
        fetched is Ok ==> forall|i: int|
            0 <= i < fetched->Ok_0@.len() ==> #[trigger] fetched_view(fetched)->Ok_0[i]
                == list_view(fetched->Ok_0@[i]),
        (count_view(count) is Ok) == (count is Ok),
        count is Ok ==> count_view(count)->Ok_0 == count->Ok_0,
        count is Err ==> count_view(count)->Err_0 == count->Err_0@,
{
}

/// Strings that were read are viewed as their texts, or as the words of the error.
pub proof fn law_view_of_read_strings(r: Result<Vec<String>, String>)
    ensures
        (strings_view(r) is Ok) == (r is Ok),
        r is Ok ==> strings_view(r)->Ok_0 == texts(r->Ok_0@),
        r is Err ==> strings_view(r)->Err_0 == r->Err_0@,
{
}

/// Events are viewed one by one, each as its kind and what it names.
pub proof fn law_view_of_events(events: Seq<ModuleEvent>, i: int)
    requires
        0 <= i < events.len(),
    ensures
        event_views(events).len() == events.len(),
        event_views(events)[i] == events[i]@,
        (events[i]@ is TokensUpdated) == (events[i] is TokensUpdated),
        events[i] is TokensUpdated ==> events[i]@->TokensUpdated_0 == events[i]->TokensUpdated_0,
        events[i] is ConfigChanged ==> events[i]@->ConfigChanged_0 == events[i]->ConfigChanged_0@,
{
}

/// A log has announced the events that it holds, in order.
pub proof fn law_view_of_a_log(log: EventLog)
    ensures
        log.announced().len() == log.events@.len(),
        forall|i: int| 0 <= i < log.events@.len() ==> #[trigger] log.announced()[i] == log.events@[i]@,
{
}

/// A status is viewed as its source, its configuration and its counts.
pub proof fn law_view_of_a_status(s: Status)
    ensures
        s@.source == s.source,
        (s@.config is Some) == (s.config is Some),
        s.config is Some ==> s@.config->0 == s.config->0@,
        s@.embedded == s.counts.embedded,
        s@.downloaded == s.counts.downloaded,
        s@.custom == s.counts.custom,
{
}

/// An error of the module is viewed as its kind and what it passes on.
pub proof fn law_view_of_a_module_error(e: ModuleError)
    ensures
        (e@ is NotReady) == (e is NotReady),
        (e@ is Busy) == (e is Busy),
        (e@ is BadChain) == (e is BadChain),
        (e@ is BadAddresses) == (e is BadAddresses),
        e is BadAddresses ==> e@->BadAddresses_0 == e->BadAddresses_0@,
        (e@ is Token) == (e is Token),
        e is Token ==> e@->Token_0 == e->Token_0@,
        (e@ is Offered) == (e is Offered),
        e is Offered ==> e@->Offered_0 == e->Offered_0,
{
}

/// A mutation is viewed as its kind and its arguments.
pub proof fn law_view_of_a_mutation(m: Mutation)
    ensures
        match m {
            Mutation::Configure(w) => m@ is Configure && m@->Configure_0 == w@,
            Mutation::InitDefaults => m@ is InitDefaults,
            Mutation::ApplyRefresh(plan, fetched) => m@ is ApplyRefresh && m@->ApplyRefresh_0
                == plan@ && m@->ApplyRefresh_1 == fetched_view(fetched),
            Mutation::SetTokenEnabled(c, a, on) => m@ is SetTokenEnabled && m@->SetTokenEnabled_0
                == c && m@->SetTokenEnabled_1 == a@ && m@->SetTokenEnabled_2 == on,
            Mutation::AddCustomToken(t) => m@ is AddCustomToken && m@->AddCustomToken_0 == t@,
            Mutation::ImportCustomTokens(doc, replace) => m@ is ImportCustomTokens
                && m@->ImportCustomTokens_0 == doc_view(doc) && m@->ImportCustomTokens_1
                == replace,
            Mutation::RemoveCustomToken(c, a) => m@ is RemoveCustomToken
                && m@->RemoveCustomToken_0 == c && m@->RemoveCustomToken_1 == a@,
        },
{
}

/// What a mutation answered is viewed as its kind and its answer.
pub proof fn law_view_of_an_outcome(o: Outcome)
    ensures
        match o {
            Outcome::Configured(b) => o@ is Configured && o@->Configured_0 == b,
            Outcome::Defaulted(b) => o@ is Defaulted && o@->Defaulted_0 == b,
            Outcome::Refreshed(r) => o@ is Refreshed && o@->Refreshed_0 == count_view(r),
            Outcome::Toggled(r) => o@ is Toggled && o@->Toggled_0 == r,
            Outcome::Added(b) => o@ is Added && o@->Added_0 == b,
            Outcome::Imported(r) => o@ is Imported && o@->Imported_0 == count_view(r),
            Outcome::Removed(b) => o@ is Removed && o@->Removed_0 == b,
        },
{
}

} // verus!
