//! The module that callers talk to: which call does what to the list, what it answers, and what it
//! announces.
use vstd::prelude::*;

use crate::catalogue::has_key;
use crate::config::{source_str, ConfigSource, ConfigView, ListConfig, ListConfigWire, WireView};
use crate::digest::{changed_chains, moved_chains};
use crate::events::{EventView, TokenListModuleEvents};
use crate::json::{json_strings, read_strings};
use crate::model::{page, FetchedView, ListView, PlanView};
use crate::offered::{enabled_views, EnabledTokenRow, OfferedError};
use crate::store::{write_views, StoreDir, StoreWrite};
use crate::text::normalized;
use crate::token::{
    doc_view, opt_text, row_views, source_views, views, DocView, ListSource, Token, TokenError,
    TokenErrorView, TokenListDoc, TokenRow, TokenView,
};
use crate::tokens::{count_view, fetched_view, Counts, Fetched, RefreshPlan, TokenList};

verus! {

/// Why a call was not answered.
#[derive(Debug)]
pub enum ModuleError {
    /// The context is not ready: there is no list yet.
    NotReady,
    /// A refresh is running.
    Busy,
    /// The chain id is negative.
    BadChain,
    /// The addresses are not a JSON array of strings.
    BadAddresses(String),
    Token(TokenError),
    Offered(OfferedError),
}

/// What a [`ModuleError`] says.
pub enum ModuleErrorView {
    NotReady,
    Busy,
    BadChain,
    BadAddresses(Seq<char>),
    Token(TokenErrorView),
    Offered(OfferedError),
}

impl View for ModuleError {
    type V = ModuleErrorView;

    open spec fn view(&self) -> ModuleErrorView {
        match self {
            ModuleError::NotReady => ModuleErrorView::NotReady,
            ModuleError::Busy => ModuleErrorView::Busy,
            ModuleError::BadChain => ModuleErrorView::BadChain,
            ModuleError::BadAddresses(e) => ModuleErrorView::BadAddresses(e@),
            ModuleError::Token(e) => ModuleErrorView::Token(e@),
            ModuleError::Offered(e) => ModuleErrorView::Offered(*e),
        }
    }
}

impl ModuleErrorView {
    /// The error as a user reads it.
    pub open spec fn message(self) -> Seq<char> {
        match self {
            ModuleErrorView::NotReady => "token_list not initialized (context not ready)"@,
            ModuleErrorView::Busy => "a refresh is already running"@,
            ModuleErrorView::BadChain => "chainId must be non-negative"@,
            ModuleErrorView::BadAddresses(e) => e,
            ModuleErrorView::Token(e) => e.message(),
            ModuleErrorView::Offered(e) => e.message_text(),
        }
    }

    /// The code for an error, where it has one.
    pub open spec fn code(self) -> Option<Seq<char>> {
        match self {
            ModuleErrorView::BadChain => Some("bad_chain"@),
            ModuleErrorView::Offered(e) => Some(e.code_text()),
            _ => None,
        }
    }
}

impl ModuleError {
    /// The error as a user reads it.
    pub fn message(&self) -> (r: String)
        ensures
            r@ == self@.message(),
    {
        match self {
            ModuleError::NotReady => "token_list not initialized (context not ready)".to_string(),
            ModuleError::Busy => "a refresh is already running".to_string(),
            ModuleError::BadChain => "chainId must be non-negative".to_string(),
            ModuleError::BadAddresses(e) => e.clone(),
            ModuleError::Token(e) => e.message(),
            ModuleError::Offered(e) => e.message(),
        }
    }

    /// The code that a program tells errors apart by, where there is one.
    pub fn code(&self) -> (r: Option<String>)
        ensures
            opt_text(r) == self@.code(),
    {
        match self {
            ModuleError::BadChain => Some("bad_chain".to_string()),
            ModuleError::Offered(e) => Some(e.code()),
            _ => None,
        }
    }
}

/// What the status of a list says: whether it is configured, by whom and how, and how much each
/// bucket holds.
#[derive(Debug)]
pub struct Status {
    pub source: ConfigSource,
    /// The configuration, where one has been set.
    pub config: Option<ListConfig>,
    pub counts: Counts,
}

/// What a [`Status`] says.
#[verifier::ext_equal]
pub struct StatusView {
    pub source: ConfigSource,
    pub config: Option<ConfigView>,
    pub embedded: nat,
    pub downloaded: nat,
    pub custom: nat,
}

impl View for Status {
    type V = StatusView;

    open spec fn view(&self) -> StatusView {
        StatusView {
            source: self.source,
            config: match self.config {
                Some(c) => Some(c@),
                None => None,
            },
            embedded: self.counts.embedded as nat,
            downloaded: self.counts.downloaded as nat,
            custom: self.counts.custom as nat,
        }
    }
}

impl StatusView {
    /// The status of a list. The configuration is told only where one has been set.
    pub open spec fn of(v: ListView) -> StatusView {
        StatusView {
            source: v.config_source,
            config: if v.config_source != ConfigSource::Unset {
                Some(v.config)
            } else {
                None
            },
            embedded: v.embedded().len(),
            downloaded: v.downloaded.len(),
            custom: v.custom.len(),
        }
    }

    /// The word for whether anything has been set.
    pub open spec fn state(self) -> Seq<char> {
        if self.config is Some {
            "configured"@
        } else {
            "unconfigured"@
        }
    }
}

impl Status {
    /// The word for whether anything has been set.
    pub fn state(&self) -> (r: String)
        ensures
            r@ == self@.state(),
    {
        if self.config.is_some() {
            "configured".to_string()
        } else {
            "unconfigured".to_string()
        }
    }
}

/// The status of a list.
fn status_body(tl: &TokenList) -> (r: Status)
    ensures
        r@ == StatusView::of(tl@),
{
    let source = tl.config_source();
    Status {
        source,
        config: if source != ConfigSource::Unset {
            Some(tl.config().clone())
        } else {
            None
        },
        counts: tl.counts(),
    }
}

/// What `init_defaults` answers.
#[derive(Debug)]
pub struct InitReply {
    pub applied: bool,
    /// Why the defaults were not applied, where they were not.
    pub reason: Option<String>,
    pub status: Status,
}

/// What enabling or disabling a token answers.
#[derive(Debug)]
pub struct ToggleReply {
    pub chain_id: i64,
    pub address: String,
    pub enabled: bool,
    pub changed: bool,
}

/// One page of the available tokens.
#[derive(Debug)]
pub struct AvailablePage {
    pub chain_id: i64,
    /// How many tokens the query finds.
    pub total: usize,
    pub offset: usize,
    pub shown: usize,
    pub has_more: bool,
    /// How many tokens there are without the query.
    pub listed: usize,
    pub tokens: Vec<Token>,
}

/// A call that changes a list.
#[derive(Debug)]
pub enum Mutation {
    Configure(ListConfigWire),
    InitDefaults,
    ApplyRefresh(RefreshPlan, Result<Vec<Fetched>, String>),
    SetTokenEnabled(u64, String, bool),
    AddCustomToken(Token),
    ImportCustomTokens(Result<TokenListDoc, String>, bool),
    RemoveCustomToken(u64, String),
}

/// What a [`Mutation`] says.
pub enum MutationView {
    Configure(WireView),
    InitDefaults,
    ApplyRefresh(PlanView, Result<Seq<FetchedView>, Seq<char>>),
    SetTokenEnabled(u64, Seq<char>, bool),
    AddCustomToken(TokenView),
    ImportCustomTokens(Result<DocView, Seq<char>>, bool),
    RemoveCustomToken(u64, Seq<char>),
}

impl View for Mutation {
    type V = MutationView;

    open spec fn view(&self) -> MutationView {
        match self {
            Mutation::Configure(w) => MutationView::Configure(w@),
            Mutation::InitDefaults => MutationView::InitDefaults,
            Mutation::ApplyRefresh(plan, fetched) => MutationView::ApplyRefresh(
                plan@,
                fetched_view(*fetched),
            ),
            Mutation::SetTokenEnabled(c, a, e) => MutationView::SetTokenEnabled(*c, a@, *e),
            Mutation::AddCustomToken(t) => MutationView::AddCustomToken(t@),
            Mutation::ImportCustomTokens(doc, replace) => MutationView::ImportCustomTokens(
                doc_view(*doc),
                *replace,
            ),
            Mutation::RemoveCustomToken(c, a) => MutationView::RemoveCustomToken(*c, a@),
        }
    }
}

/// What a mutation answered.
#[derive(Debug)]
pub enum Outcome {
    Configured(bool),
    Defaulted(bool),
    Refreshed(Result<usize, TokenError>),
    Toggled(Result<bool, OfferedError>),
    Added(bool),
    Imported(Result<usize, TokenError>),
    Removed(bool),
}

/// What an [`Outcome`] says.
pub enum OutcomeView {
    Configured(bool),
    Defaulted(bool),
    Refreshed(Result<nat, TokenErrorView>),
    Toggled(Result<bool, OfferedError>),
    Added(bool),
    Imported(Result<nat, TokenErrorView>),
    Removed(bool),
}

impl View for Outcome {
    type V = OutcomeView;

    open spec fn view(&self) -> OutcomeView {
        match self {
            Outcome::Configured(b) => OutcomeView::Configured(*b),
            Outcome::Defaulted(b) => OutcomeView::Defaulted(*b),
            Outcome::Refreshed(r) => OutcomeView::Refreshed(count_view(*r)),
            Outcome::Toggled(r) => OutcomeView::Toggled(*r),
            Outcome::Added(b) => OutcomeView::Added(*b),
            Outcome::Imported(r) => OutcomeView::Imported(count_view(*r)),
            Outcome::Removed(b) => OutcomeView::Removed(*b),
        }
    }
}

impl MutationView {
    /// The list once the mutation is made.
    pub open spec fn apply(self, v: ListView) -> ListView {
        match self {
            MutationView::Configure(w) => v.configured(w.over(v.config)),
            MutationView::InitDefaults => v.defaulted(),
            MutationView::ApplyRefresh(plan, fetched) => v.refreshed(plan, fetched),
            MutationView::SetTokenEnabled(c, a, e) => v.toggled(c, a, e),
            MutationView::AddCustomToken(t) => v.custom_added(t),
            MutationView::ImportCustomTokens(doc, replace) => v.imported(doc, replace),
            MutationView::RemoveCustomToken(c, a) => v.custom_removed(c, a),
        }
    }

    /// What the mutation answers.
    pub open spec fn outcome(self, v: ListView) -> OutcomeView {
        match self {
            MutationView::Configure(w) => OutcomeView::Configured(!v.holds(w.over(v.config))),
            MutationView::InitDefaults => OutcomeView::Defaulted(
                v.config_source == ConfigSource::Unset,
            ),
            MutationView::ApplyRefresh(plan, fetched) => OutcomeView::Refreshed(
                v.refresh_reply(plan, fetched),
            ),
            MutationView::SetTokenEnabled(c, a, e) => OutcomeView::Toggled(
                v.toggle_reply(c, a, e),
            ),
            MutationView::AddCustomToken(t) => OutcomeView::Added(!v.custom.contains(t)),
            MutationView::ImportCustomTokens(doc, replace) => OutcomeView::Imported(
                v.import_reply(doc, replace),
            ),
            MutationView::RemoveCustomToken(c, a) => OutcomeView::Removed(
                has_key(v.custom, (c, normalized(a))),
            ),
        }
    }
}

/// One announcement for each of some chains.
pub open spec fn updates(chains: Seq<u64>) -> Seq<EventView> {
    chains.map_values(|c: u64| EventView::TokensUpdated(c as i64))
}

/// The chains whose rows differ between two states of a list.
pub open spec fn moved_between(before: ListView, after: ListView) -> Seq<u64> {
    moved_chains(before.digests(), after.digests())
}

/// The stored configuration record is not what it was.
pub open spec fn record_moved(before: ListView, after: ListView) -> bool {
    before.config != after.config || before.config_source != after.config_source
}

/// What is announced between two states of a list: the chains whose rows moved, and then the
/// configuration record, if that moved.
pub open spec fn heard(before: ListView, after: ListView) -> Seq<EventView> {
    updates(moved_between(before, after)) + if record_moved(before, after) {
        seq![EventView::ConfigChanged(after.config_source.word())]
    } else {
        Seq::empty()
    }
}

/// The call failed with this error.
pub open spec fn fails<T>(r: Result<T, ModuleError>, e: ModuleErrorView) -> bool {
    r matches Err(x) && x@ == e
}

/// A call that reads some chain of a list: it fails where the chain id is negative, and then where
/// there is no list.
pub open spec fn reads_chain<T>(
    r: Result<T, ModuleError>,
    chain_id: i64,
    list: Option<ListView>,
) -> bool {
    if chain_id < 0 {
        fails(r, ModuleErrorView::BadChain)
    } else if list is None {
        fails(r, ModuleErrorView::NotReady)
    } else {
        r is Ok
    }
}

/// Where a page starts; an offset that is none is the start.
pub open spec fn offset_of(offset: i64) -> nat {
    if 0 <= offset <= usize::MAX {
        offset as nat
    } else {
        0
    }
}

/// How much a page holds; a limit that is none, or nothing, is no limit.
pub open spec fn limit_of(limit: i64) -> Option<nat> {
    if 0 < limit <= usize::MAX {
        Some(limit as nat)
    } else {
        None
    }
}

/// What callers ask of the module. A call that changes what is stored announces what moved; a
/// call that only reads has nothing to announce with.
pub trait TokenListModule {
    /// The list, once the context is ready.
    spec fn state(&self) -> Option<ListView>;

    /// The context is ready: the list is opened from what its directory holds.
    fn on_context_ready(&mut self, dir: StoreDir, shipped: Vec<Token>)
        ensures
            final(self).state() == Some(ListView::opened(dir@, views(shipped@))),
    ;

    /// Hands over the writes that the directory has yet to see.
    fn take_writes(&mut self) -> (r: Vec<StoreWrite>)
        ensures
            match old(self).state() {
                Some(v) => {
                    &&& write_views(r@) == v.writes
                    &&& final(self).state() == Some(ListView { writes: Seq::empty(), ..v })
                },
                None => r@.len() == 0 && final(self).state() is None,
            },
    ;

    /// Edits the configuration; what the edit leaves out keeps its value. Returns whether the edit
    /// was taken, also where it changes nothing; `None` stands for a text that is no edit.
    fn configure<E: TokenListModuleEvents>(
        &mut self,
        wire: Option<ListConfigWire>,
        events: &mut E,
    ) -> (r: bool)
        ensures
            r == (wire is Some && old(self).state() is Some),
            match (old(self).state(), wire) {
                (Some(v), Some(w)) => {
                    let after = MutationView::Configure(w@).apply(v);
                    &&& final(self).state() == Some(after)
                    &&& final(events).announced() == old(events).announced() + heard(v, after)
                },
                _ => {
                    &&& final(self).state() == old(self).state()
                    &&& final(events).announced() == old(events).announced()
                },
            },
    ;

    /// Whether a configuration has been set, and which; `None` means to ask again.
    fn config_status(&self) -> (r: Option<Status>)
        ensures
            match self.state() {
                Some(v) => r matches Some(s) && s@ == StatusView::of(v),
                None => r is None,
            },
    ;

    /// Applies the built-in defaults, only where nothing is configured; `None` means to ask again.
    fn init_defaults<E: TokenListModuleEvents>(&mut self, events: &mut E) -> (r: Option<InitReply>)
        ensures
            match old(self).state() {
                Some(v) => {
                    let after = MutationView::InitDefaults.apply(v);
                    &&& final(self).state() == Some(after)
                    &&& final(events).announced() == old(events).announced() + heard(v, after)
                    &&& r matches Some(reply) && {
                        &&& reply.applied == (v.config_source == ConfigSource::Unset)
                        &&& opt_text(reply.reason) == if reply.applied {
                            None
                        } else {
                            Some("already configured"@)
                        }
                        &&& reply.status@ == StatusView::of(after)
                    }
                },
                None => {
                    &&& r is None
                    &&& final(self).state() is None
                    &&& final(events).announced() == old(events).announced()
                },
            },
    ;

    /// Begins a refresh: says what is to be fetched. It only reads, so the fetch itself holds
    /// nobody up. `busy` says that another refresh is running.
    fn begin_refresh(&self, busy: bool) -> (r: Result<RefreshPlan, ModuleError>)
        ensures
            if busy {
                fails(r, ModuleErrorView::Busy)
            } else {
                match self.state() {
                    Some(v) => r matches Ok(plan) && plan@ == v.plan(),
                    None => fails(r, ModuleErrorView::NotReady),
                }
            },
    ;

    /// Ends a refresh with what was fetched, and returns how many tokens are downloaded now.
    fn refresh_now<E: TokenListModuleEvents>(
        &mut self,
        plan: RefreshPlan,
        fetched: Result<Vec<Fetched>, String>,
        events: &mut E,
    ) -> (r: Result<usize, ModuleError>)
        ensures
            match old(self).state() {
                Some(v) => {
                    let after = v.refreshed(plan@, fetched_view(fetched));
                    &&& final(self).state() == Some(after)
                    &&& final(events).announced() == old(events).announced() + heard(v, after)
                    &&& match v.refresh_reply(plan@, fetched_view(fetched)) {
                        Ok(n) => r matches Ok(count) && count == n,
                        Err(e) => fails(r, ModuleErrorView::Token(e)),
                    }
                },
                None => {
                    &&& fails(r, ModuleErrorView::NotReady)
                    &&& final(self).state() is None
                    &&& final(events).announced() == old(events).announced()
                },
            },
    ;

    /// The merged rows of a chain, each with the bucket it came from.
    fn get_tokens(&self, chain_id: i64) -> (r: Result<Vec<TokenRow>, ModuleError>)
        ensures
            reads_chain(r, chain_id, self.state()),
            r matches Ok(rows) ==> row_views(rows@) == self.state()->0.rows(chain_id as u64),
    ;

    /// The rows of some addresses of a chain only; the addresses are a JSON array of strings, and
    /// their case does not matter.
    fn get_tokens_by_address(&self, chain_id: i64, addresses_json: &str) -> (r: Result<
        Vec<TokenRow>,
        ModuleError,
    >)
        ensures
            if chain_id < 0 {
                fails(r, ModuleErrorView::BadChain)
            } else {
                match (json_strings(addresses_json@), self.state()) {
                    (Err(e), _) => fails(r, ModuleErrorView::BadAddresses(e)),
                    (Ok(_), None) => fails(r, ModuleErrorView::NotReady),
                    (Ok(addresses), Some(v)) => r matches Ok(rows) && row_views(rows@)
                        == v.rows_at(chain_id as u64, addresses),
                }
            },
    ;

    /// The rows of every chain.
    fn get_all_tokens(&self) -> (r: Result<Vec<TokenRow>, ModuleError>)
        ensures
            match self.state() {
                Some(v) => r matches Ok(rows) && row_views(rows@) == v.all_rows(),
                None => fails(r, ModuleErrorView::NotReady),
            },
    ;

    /// Enables or disables a token of a chain. Enabling takes a snapshot of the row in the
    /// catalogue; disabling drops it. A pinned row cannot be disabled.
    fn set_token_enabled<E: TokenListModuleEvents>(
        &mut self,
        chain_id: i64,
        address: String,
        enabled: bool,
        events: &mut E,
    ) -> (r: Result<ToggleReply, ModuleError>)
        ensures
            if chain_id < 0 {
                &&& fails(r, ModuleErrorView::BadChain)
                &&& final(self).state() == old(self).state()
                &&& final(events).announced() == old(events).announced()
            } else {
                match old(self).state() {
                    Some(v) => {
                        let after = v.toggled(chain_id as u64, address@, enabled);
                        &&& final(self).state() == Some(after)
                        &&& final(events).announced() == old(events).announced() + heard(v, after)
                        &&& match v.toggle_reply(chain_id as u64, address@, enabled) {
                            Ok(changed) => r matches Ok(t) && {
                                &&& t.chain_id == chain_id
                                &&& t.address@ == address@
                                &&& t.enabled == enabled
                                &&& t.changed == changed
                            },
                            Err(e) => fails(r, ModuleErrorView::Offered(e)),
                        }
                    },
                    None => {
                        &&& fails(r, ModuleErrorView::NotReady)
                        &&& final(self).state() is None
                        &&& final(events).announced() == old(events).announced()
                    },
                }
            },
    ;

    /// The stored snapshots of a chain, each with whether a bucket of the catalogue still
    /// describes its address.
    fn get_enabled_tokens(&self, chain_id: i64) -> (r: Result<Vec<EnabledTokenRow>, ModuleError>)
        ensures
            reads_chain(r, chain_id, self.state()),
            r matches Ok(rows) ==> enabled_views(rows@) == self.state()->0.enabled_rows(
                chain_id as u64,
            ),
    ;

    /// The pinned tokens of a chain, followed by the enabled snapshots.
    fn list_offered(&self, chain_id: i64) -> (r: Result<Vec<Token>, ModuleError>)
        ensures
            reads_chain(r, chain_id, self.state()),
            r matches Ok(tokens) ==> views(tokens@) == self.state()->0.offered(chain_id as u64),
    ;

    /// The offered tokens of a chain, then the rest of its catalogue: one page of those that a
    /// query finds.
    fn list_available(&self, chain_id: i64, query: &str, offset: i64, limit: i64) -> (r: Result<
        AvailablePage,
        ModuleError,
    >)
        ensures
            reads_chain(r, chain_id, self.state()),
            r matches Ok(p) ==> {
                let v = self.state()->0;
                let found = v.found(chain_id as u64, query@);
                &&& p.chain_id == chain_id
                &&& p.total == found.len()
                &&& p.offset == offset_of(offset)
                &&& p.listed == v.available(chain_id as u64).len()
                &&& views(p.tokens@) == page(found, offset_of(offset), limit_of(limit))
                &&& p.shown == p.tokens@.len()
                &&& p.has_more == (p.offset + p.shown < p.total)
            },
    ;

    /// Adds or replaces one of the user's own tokens. Returns whether it is stored, which a token
    /// that was there already is too; `None` stands for a text that is no token.
    fn add_custom_token<E: TokenListModuleEvents>(
        &mut self,
        token: Option<Token>,
        events: &mut E,
    ) -> (r: bool)
        ensures
            r == (token is Some && old(self).state() is Some),
            match (old(self).state(), token) {
                (Some(v), Some(t)) => {
                    &&& final(self).state() == Some(v.custom_added(t@))
                    &&& final(events).announced() == old(events).announced() + heard(
                        v,
                        v.custom_added(t@),
                    )
                },
                _ => {
                    &&& final(self).state() == old(self).state()
                    &&& final(events).announced() == old(events).announced()
                },
            },
    ;

    /// Takes the tokens of one document into the user's own list, and returns how many there are
    /// now.
    fn import_custom_tokens<E: TokenListModuleEvents>(
        &mut self,
        doc: Result<TokenListDoc, String>,
        replace: bool,
        events: &mut E,
    ) -> (r: Result<usize, ModuleError>)
        ensures
            match old(self).state() {
                Some(v) => {
                    let after = v.imported(doc_view(doc), replace);
                    &&& final(self).state() == Some(after)
                    &&& final(events).announced() == old(events).announced() + heard(v, after)
                    &&& match v.import_reply(doc_view(doc), replace) {
                        Ok(n) => r matches Ok(count) && count == n,
                        Err(e) => fails(r, ModuleErrorView::Token(e)),
                    }
                },
                None => {
                    &&& fails(r, ModuleErrorView::NotReady)
                    &&& final(self).state() is None
                    &&& final(events).announced() == old(events).announced()
                },
            },
    ;

    /// Drops one of the user's own tokens. Returns whether there was one.
    fn remove_custom_token<E: TokenListModuleEvents>(
        &mut self,
        chain_id: i64,
        address: String,
        events: &mut E,
    ) -> (r: bool)
        ensures
            match old(self).state() {
                Some(v) => {
                    let after = v.custom_removed(chain_id as u64, address@);
                    &&& final(self).state() == Some(after)
                    &&& final(events).announced() == old(events).announced() + heard(v, after)
                    &&& r == has_key(v.custom, (chain_id as u64, normalized(address@)))
                },
                None => {
                    &&& !r
                    &&& final(self).state() is None
                    &&& final(events).announced() == old(events).announced()
                },
            },
    ;

    /// The user's own tokens.
    fn get_custom_tokens(&self) -> (r: Result<Vec<Token>, ModuleError>)
        ensures
            match self.state() {
                Some(v) => r matches Ok(tokens) && views(tokens@) == v.custom,
                None => fails(r, ModuleErrorView::NotReady),
            },
    ;

    /// How the last refresh went, URL by URL.
    fn get_list_sources(&self) -> (r: Result<Vec<ListSource>, ModuleError>)
        ensures
            match self.state() {
                Some(v) => r matches Ok(sources) && source_views(sources@) == v.sources,
                None => fails(r, ModuleErrorView::NotReady),
            },
    ;
}

/// Makes a mutation.
fn apply(tl: &mut TokenList, m: Mutation) -> (r: Outcome)
    ensures
        final(tl)@ == m@.apply(old(tl)@),
        r@ == m@.outcome(old(tl)@),
{
    match m {
        Mutation::Configure(wire) => {
            let resolved = wire.resolve(Some(tl.config()));
            Outcome::Configured(tl.configure(resolved))
        },
        Mutation::InitDefaults => Outcome::Defaulted(tl.init_defaults()),
        Mutation::ApplyRefresh(plan, fetched) => Outcome::Refreshed(
            tl.apply_refresh(&plan, fetched),
        ),
        Mutation::SetTokenEnabled(chain_id, address, enabled) => Outcome::Toggled(
            tl.set_token_enabled(chain_id, address.as_str(), enabled),
        ),
        Mutation::AddCustomToken(token) => Outcome::Added(tl.add_custom_token(token)),
        Mutation::ImportCustomTokens(doc, replace) => Outcome::Imported(
            tl.import_custom_tokens(doc, replace),
        ),
        Mutation::RemoveCustomToken(chain_id, address) => Outcome::Removed(
            tl.remove_custom_token(chain_id, address.as_str()),
        ),
    }
}

/// A count as a size, where it is one.
fn size_of_count(n: i64) -> (r: Option<usize>)
    ensures
        r == if 0 <= n <= usize::MAX {
            Some(n as usize)
        } else {
            None
        },
{
    if n < 0 || n as u64 > usize::MAX as u64 {
        None
    } else {
        Some(n as usize)
    }
}

/// A copy of some tokens.
fn slice_tokens(tokens: &[Token]) -> (r: Vec<Token>)
    ensures
        views(r@) == views(tokens@),
{
    let mut r: Vec<Token> = Vec::new();
    r.extend_from_slice(tokens);
    assert(views(r@) =~= views(tokens@));
    r
}

/// A copy of some status rows.
fn slice_sources(sources: &[ListSource]) -> (r: Vec<ListSource>)
    ensures
        source_views(r@) == source_views(sources@),
{
    let mut r: Vec<ListSource> = Vec::new();
    r.extend_from_slice(sources);
    assert(source_views(r@) =~= source_views(sources@));
    r
}

/// The module: a list, once the context is ready.
pub struct TokenListModuleImpl {
    tl: Option<TokenList>,
}

impl TokenListModuleImpl {
    /// The list, once the context is ready.
    pub closed spec fn list(&self) -> Option<ListView> {
        match self.tl {
            Some(tl) => Some(tl@),
            None => None,
        }
    }

    /// A module whose context is not ready.
    pub fn new() -> (r: Self)
        ensures
            r.list() is None,
    {
        TokenListModuleImpl { tl: None }
    }

    /// Announces that the stored configuration record moved.
    fn announce_config<E: TokenListModuleEvents>(&self, events: &mut E)
        requires
            self.list() is Some,
        ensures
            final(events).announced() == old(events).announced().push(
                EventView::ConfigChanged(self.list()->0.config_source.word()),
            ),
    {
        if let Some(tl) = &self.tl {
            events.config_changed(source_str(tl.config_source()));
        }
    }

    /// Makes a mutation and announces the chains whose served rows it really moved. What is
    /// served is fingerprinted before and after: what a caller passed in says nothing about
    /// whether it differs from what was stored, and a refresh that drops a list must announce the
    /// chains that it emptied.
    fn with_chain_events<E: TokenListModuleEvents>(&mut self, m: Mutation, events: &mut E) -> (r:
        Result<Outcome, ModuleError>)
        ensures
            match old(self).list() {
                Some(v) => {
                    &&& final(self).list() == Some(m@.apply(v))
                    &&& r matches Ok(o) && o@ == m@.outcome(v)
                    &&& final(events).announced() == old(events).announced() + updates(
                        moved_between(v, m@.apply(v)),
                    )
                },
                None => {
                    &&& final(self).list() is None
                    &&& r matches Err(e) && e is NotReady
                    &&& final(events).announced() == old(events).announced()
                },
            },
    {
        match &mut self.tl {
            Some(tl) => {
                let before = tl.chain_digests();
                let out = apply(tl, m);
                let after = tl.chain_digests();
                let moved = changed_chains(&before, &after);
                let ghost start = events.announced();
                let mut i: usize = 0;
                assert(start + updates(moved@.take(0)) =~= start);
                while i < moved.len()
                    invariant
                        i <= moved.len(),
                        events.announced() == start + updates(moved@.take(i as int)),
                    decreases moved.len() - i,
                {
                    events.tokens_updated(moved[i] as i64);
                    assert(updates(moved@.take(i + 1)) =~= updates(moved@.take(i as int)).push(
                        EventView::TokensUpdated(moved@[i as int] as i64),
                    ));
                    assert(events.announced() =~= start + updates(moved@.take(i + 1)));
                    i = i + 1;
                }
                assert(moved@.take(i as int) =~= moved@);
                Ok(out)
            },
            None => Err(ModuleError::NotReady),
        }
    }
}

impl TokenListModule for TokenListModuleImpl {
    open spec fn state(&self) -> Option<ListView> {
        self.list()
    }

    fn on_context_ready(&mut self, dir: StoreDir, shipped: Vec<Token>) {
        self.tl = Some(TokenList::with_dir(dir, shipped));
    }

    fn take_writes(&mut self) -> (r: Vec<StoreWrite>) {
        match &mut self.tl {
            Some(tl) => tl.take_writes(),
            None => Vec::new(),
        }
    }

    fn configure<E: TokenListModuleEvents>(
        &mut self,
        wire: Option<ListConfigWire>,
        events: &mut E,
    ) -> (r: bool) {
        let wire = match wire {
            Some(w) => w,
            None => {
                return false;
            },
        };
        match self.with_chain_events(Mutation::Configure(wire), events) {
            Ok(Outcome::Configured(moved)) => {
                if moved {
                    self.announce_config(events);
                }
                true
            },
            _ => false,
        }
    }

    fn config_status(&self) -> (r: Option<Status>) {
        match &self.tl {
            Some(tl) => Some(status_body(tl)),
            None => None,
        }
    }

    fn init_defaults<E: TokenListModuleEvents>(&mut self, events: &mut E) -> (r: Option<
        InitReply,
    >) {
        match self.with_chain_events(Mutation::InitDefaults, events) {
            Ok(Outcome::Defaulted(applied)) => {
                if applied {
                    self.announce_config(events);
                }
                match self.config_status() {
                    Some(status) => Some(
                        InitReply {
                            applied,
                            reason: if applied {
                                None
                            } else {
                                Some("already configured".to_string())
                            },
                            status,
                        },
                    ),
                    None => None,
                }
            },
            _ => None,
        }
    }

    fn begin_refresh(&self, busy: bool) -> (r: Result<RefreshPlan, ModuleError>) {
        if busy {
            return Err(ModuleError::Busy);
        }
        match &self.tl {
            Some(tl) => Ok(tl.refresh_plan()),
            None => Err(ModuleError::NotReady),
        }
    }

    fn refresh_now<E: TokenListModuleEvents>(
        &mut self,
        plan: RefreshPlan,
        fetched: Result<Vec<Fetched>, String>,
        events: &mut E,
    ) -> (r: Result<usize, ModuleError>) {
        match self.with_chain_events(Mutation::ApplyRefresh(plan, fetched), events) {
            Ok(Outcome::Refreshed(Ok(count))) => Ok(count),
            Ok(Outcome::Refreshed(Err(e))) => Err(ModuleError::Token(e)),
            _ => Err(ModuleError::NotReady),
        }
    }

    fn get_tokens(&self, chain_id: i64) -> (r: Result<Vec<TokenRow>, ModuleError>) {
        if chain_id < 0 {
            return Err(ModuleError::BadChain);
        }
        match &self.tl {
            Some(tl) => Ok(tl.get_tokens(chain_id as u64)),
            None => Err(ModuleError::NotReady),
        }
    }

    fn get_tokens_by_address(&self, chain_id: i64, addresses_json: &str) -> (r: Result<
        Vec<TokenRow>,
        ModuleError,
    >) {
        if chain_id < 0 {
            return Err(ModuleError::BadChain);
        }
        let addresses = match read_strings(addresses_json) {
            Ok(a) => a,
            Err(e) => {
                return Err(ModuleError::BadAddresses(e));
            },
        };
        match &self.tl {
            Some(tl) => Ok(tl.get_tokens_by_address(chain_id as u64, addresses.as_slice())),
            None => Err(ModuleError::NotReady),
        }
    }

    fn get_all_tokens(&self) -> (r: Result<Vec<TokenRow>, ModuleError>) {
        match &self.tl {
            Some(tl) => Ok(tl.get_all_tokens()),
            None => Err(ModuleError::NotReady),
        }
    }

    fn set_token_enabled<E: TokenListModuleEvents>(
        &mut self,
        chain_id: i64,
        address: String,
        enabled: bool,
        events: &mut E,
    ) -> (r: Result<ToggleReply, ModuleError>) {
        if chain_id < 0 {
            return Err(ModuleError::BadChain);
        }
        let m = Mutation::SetTokenEnabled(chain_id as u64, address.clone(), enabled);
        match self.with_chain_events(m, events) {
            Ok(Outcome::Toggled(Ok(changed))) => Ok(
                ToggleReply { chain_id, address, enabled, changed },
            ),
            Ok(Outcome::Toggled(Err(e))) => Err(ModuleError::Offered(e)),
            _ => Err(ModuleError::NotReady),
        }
    }

    fn get_enabled_tokens(&self, chain_id: i64) -> (r: Result<Vec<EnabledTokenRow>, ModuleError>) {
        if chain_id < 0 {
            return Err(ModuleError::BadChain);
        }
        match &self.tl {
            Some(tl) => Ok(tl.get_enabled_tokens(chain_id as u64)),
            None => Err(ModuleError::NotReady),
        }
    }

    fn list_offered(&self, chain_id: i64) -> (r: Result<Vec<Token>, ModuleError>) {
        if chain_id < 0 {
            return Err(ModuleError::BadChain);
        }
        match &self.tl {
            Some(tl) => Ok(tl.list_offered(chain_id as u64)),
            None => Err(ModuleError::NotReady),
        }
    }

    fn list_available(&self, chain_id: i64, query: &str, offset: i64, limit: i64) -> (r: Result<
        AvailablePage,
        ModuleError,
    >) {
        if chain_id < 0 {
            return Err(ModuleError::BadChain);
        }
        let from = match size_of_count(offset) {
            Some(n) => n,
            None => 0,
        };
        let at_most = match size_of_count(limit) {
            Some(n) => if n > 0 {
                Some(n)
            } else {
                None
            },
            None => None,
        };
        match &self.tl {
            Some(tl) => {
                let (total, listed, tokens) = tl.list_available(
                    chain_id as u64,
                    query,
                    from,
                    at_most,
                );
                let shown = tokens.len();
                Ok(
                    AvailablePage {
                        chain_id,
                        total,
                        offset: from,
                        shown,
                        has_more: from.saturating_add(shown) < total,
                        listed,
                        tokens,
                    },
                )
            },
            None => Err(ModuleError::NotReady),
        }
    }

    fn add_custom_token<E: TokenListModuleEvents>(
        &mut self,
        token: Option<Token>,
        events: &mut E,
    ) -> (r: bool) {
        match token {
            Some(t) => self.with_chain_events(Mutation::AddCustomToken(t), events).is_ok(),
            None => false,
        }
    }

    fn import_custom_tokens<E: TokenListModuleEvents>(
        &mut self,
        doc: Result<TokenListDoc, String>,
        replace: bool,
        events: &mut E,
    ) -> (r: Result<usize, ModuleError>) {
        match self.with_chain_events(Mutation::ImportCustomTokens(doc, replace), events) {
            Ok(Outcome::Imported(Ok(count))) => Ok(count),
            Ok(Outcome::Imported(Err(e))) => Err(ModuleError::Token(e)),
            _ => Err(ModuleError::NotReady),
        }
    }

    fn remove_custom_token<E: TokenListModuleEvents>(
        &mut self,
        chain_id: i64,
        address: String,
        events: &mut E,
    ) -> (r: bool) {
        match self.with_chain_events(Mutation::RemoveCustomToken(chain_id as u64, address), events) {
            Ok(Outcome::Removed(removed)) => removed,
            _ => false,
        }
    }

    fn get_custom_tokens(&self) -> (r: Result<Vec<Token>, ModuleError>) {
        match &self.tl {
            Some(tl) => Ok(slice_tokens(tl.get_custom_tokens())),
            None => Err(ModuleError::NotReady),
        }
    }

    fn get_list_sources(&self) -> (r: Result<Vec<ListSource>, ModuleError>) {
        match &self.tl {
            Some(tl) => Ok(slice_sources(tl.get_list_sources())),
            None => Err(ModuleError::NotReady),
        }
    }
}

} // verus!
