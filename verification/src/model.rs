//! The token list as a mathematical state: what it serves, and what each operation makes of it.
use vstd::prelude::*;

use crate::catalogue::{chain_ids, has_address, labelled, merged, served, upserted, without};
use crate::config::{ConfigSource, ConfigView, RecordView};
use crate::digest::{digest_of, fingerprint};
use crate::offered::{pinned_tokens, pins, EnabledView, OfferedError};
use crate::proxy::ProxyView;
use crate::store::{DirView, WriteView};
use crate::text::{normalized, occurs_in};
use crate::token::{parsed, DocView, RowView, SourceView, TokenErrorView, TokenSource, TokenView};

verus! {

/// What fetching one list came to.
pub type FetchedView = Result<(Seq<char>, Seq<TokenView>), TokenErrorView>;

/// What a refresh is to fetch, and how.
#[verifier::ext_equal]
pub struct PlanView {
    pub list_urls: Seq<Seq<char>>,
    pub proxy: ProxyView,
}

/// What a token list holds.
#[verifier::ext_equal]
pub struct ListView {
    pub config: ConfigView,
    pub config_source: ConfigSource,
    /// How the last refresh went, URL by URL.
    pub sources: Seq<SourceView>,
    pub downloaded: Seq<TokenView>,
    pub custom: Seq<TokenView>,
    /// The snapshots of enabled tokens.
    pub enabled: Seq<TokenView>,
    /// The list shipped with the module.
    pub shipped: Seq<TokenView>,
    /// Whether a persistence directory stands behind the list.
    pub backed: bool,
    /// The writes that the directory has yet to see.
    pub writes: Seq<WriteView>,
}

/// The normalised forms of some addresses.
pub open spec fn all_normalized(addresses: Seq<Seq<char>>) -> Seq<Seq<char>> {
    addresses.map_values(|a: Seq<char>| normalized(a))
}

/// The rows of some chains, one chain after the other.
pub open spec fn rows_of_chains(all: Seq<RowView>, chains: Seq<u64>) -> Seq<RowView>
    decreases chains.len(),
{
    if chains.len() == 0 {
        Seq::empty()
    } else {
        rows_of_chains(all, chains.drop_last()) + served(all, chains.last(), None)
    }
}

/// The tokens of some rows.
pub open spec fn row_tokens(rows: Seq<RowView>) -> Seq<TokenView> {
    rows.map_values(|r: RowView| r.token)
}

/// A snapshot is offered on a chain: it is on it, and not one of the pinned tokens.
pub open spec fn offered_on(chain_id: u64) -> spec_fn(TokenView) -> bool {
    |t: TokenView| t.chain_id == chain_id && !pins(chain_id, t.address)
}

/// A token is not one of the pinned ones.
pub open spec fn not_pinned() -> spec_fn(TokenView) -> bool {
    |t: TokenView| !pins(t.chain_id, t.address)
}

/// A token is on a chain.
pub open spec fn is_on(chain_id: u64) -> spec_fn(TokenView) -> bool {
    |t: TokenView| t.chain_id == chain_id
}

/// Some token has this normalised address.
pub open spec fn among(tokens: Seq<TokenView>, address: Seq<char>) -> bool {
    exists|i: int| 0 <= i < tokens.len() && normalized(#[trigger] tokens[i].address) == address
}

/// A token's address is none of those of `tokens`.
pub open spec fn not_among(tokens: Seq<TokenView>) -> spec_fn(TokenView) -> bool {
    |t: TokenView| !among(tokens, normalized(t.address))
}

/// A query finds a token: it occurs in its symbol, its name or its address, whatever the case. The
/// empty query finds every token.
pub open spec fn finds(query: Seq<char>) -> spec_fn(TokenView) -> bool {
    |t: TokenView|
        {
            ||| occurs_in(normalized(query), normalized(t.symbol))
            ||| occurs_in(normalized(query), normalized(t.name))
            ||| occurs_in(normalized(query), normalized(t.address))
        }
}

/// At most `limit` of the tokens, from the `offset`-th on.
pub open spec fn page(tokens: Seq<TokenView>, offset: nat, limit: Option<nat>) -> Seq<TokenView> {
    if offset >= tokens.len() {
        Seq::empty()
    } else {
        let rest = tokens.skip(offset as int);
        match limit {
            Some(n) if n < rest.len() => rest.take(n as int),
            _ => rest,
        }
    }
}

/// The status row of one fetched URL.
pub open spec fn source_of(url: Seq<char>, fetched: FetchedView) -> SourceView {
    match fetched {
        Ok((name, tokens)) => SourceView {
            url,
            name,
            token_count: tokens.len() as usize,
            ok: true,
            error: None,
        },
        Err(e) => SourceView {
            url,
            name: Seq::empty(),
            token_count: 0,
            ok: false,
            error: Some(e.message()),
        },
    }
}

/// The status rows of a refresh: each URL with what fetching it came to.
pub open spec fn sources_of(urls: Seq<Seq<char>>, fetched: Seq<FetchedView>) -> Seq<SourceView> {
    Seq::new(
        if urls.len() <= fetched.len() {
            urls.len()
        } else {
            fetched.len()
        },
        |i: int| source_of(urls[i], fetched[i]),
    )
}

/// The first `n` of the fetched lists, those that could be fetched, one after the other.
pub open spec fn downloads(fetched: Seq<FetchedView>, n: nat) -> Seq<TokenView>
    decreases n,
{
    if n == 0 {
        Seq::empty()
    } else {
        let before = downloads(fetched, (n - 1) as nat);
        match fetched[n - 1] {
            Ok((_, tokens)) => before + tokens,
            Err(_) => before,
        }
    }
}

impl ListView {
    /// A list with nothing in it but what was shipped, and no directory behind it.
    pub open spec fn fresh(shipped: Seq<TokenView>) -> ListView {
        ListView {
            config: ConfigView::defaults(),
            config_source: ConfigSource::Unset,
            sources: Seq::empty(),
            downloaded: Seq::empty(),
            custom: Seq::empty(),
            enabled: Seq::empty(),
            shipped,
            backed: false,
            writes: Seq::empty(),
        }
    }

    /// The shipped floor, empty where the configuration turns it off.
    pub open spec fn embedded(self) -> Seq<TokenView> {
        if self.config.use_embedded_list {
            self.shipped
        } else {
            Seq::empty()
        }
    }

    /// Every row there is, in order of precedence: the user's own, then the downloaded ones, then
    /// the floor.
    pub open spec fn catalogue(self) -> Seq<RowView> {
        labelled(self.custom, TokenSource::Custom) + labelled(
            self.downloaded,
            TokenSource::Downloaded,
        ) + labelled(self.embedded(), TokenSource::Embedded)
    }

    /// The tokens of the catalogue.
    pub open spec fn catalogue_tokens(self) -> Seq<TokenView> {
        self.custom + self.downloaded + self.embedded()
    }

    /// The rows served for a chain, one for each address.
    pub open spec fn rows(self, chain_id: u64) -> Seq<RowView> {
        served(self.catalogue(), chain_id, None)
    }

    /// The rows served for a chain and some addresses.
    pub open spec fn rows_at(self, chain_id: u64, addresses: Seq<Seq<char>>) -> Seq<RowView> {
        served(self.catalogue(), chain_id, Some(all_normalized(addresses)))
    }

    /// The chains that some bucket has a token on, in ascending order.
    pub open spec fn chains(self) -> Seq<u64> {
        chain_ids(self.catalogue_tokens())
    }

    /// The rows of every chain.
    pub open spec fn all_rows(self) -> Seq<RowView> {
        rows_of_chains(self.catalogue(), self.chains())
    }

    /// The token that the catalogue serves for an address.
    pub open spec fn listed(self, chain_id: u64, address: Seq<char>) -> Option<TokenView> {
        let rows = self.rows_at(chain_id, seq![address]);
        if rows.len() == 0 {
            None
        } else {
            Some(rows[0].token)
        }
    }

    /// The enabled snapshots of a chain, each with whether the catalogue still describes it.
    pub open spec fn enabled_rows(self, chain_id: u64) -> Seq<EnabledView> {
        self.enabled.filter(is_on(chain_id)).map_values(
            |t: TokenView|
                EnabledView {
                    token: t,
                    resolved: has_address(self.rows(chain_id), normalized(t.address)),
                },
        )
    }

    /// What is offered on a chain: the pinned tokens, then the enabled snapshots.
    pub open spec fn offered(self, chain_id: u64) -> Seq<TokenView> {
        pinned_tokens(chain_id) + self.enabled.filter(offered_on(chain_id))
    }

    /// What could be offered on a chain: what is, then the rest of the catalogue.
    pub open spec fn available(self, chain_id: u64) -> Seq<TokenView> {
        self.offered(chain_id) + row_tokens(self.rows(chain_id)).filter(
            not_among(self.offered(chain_id)),
        )
    }

    /// The available tokens of a chain that a query finds.
    pub open spec fn found(self, chain_id: u64, query: Seq<char>) -> Seq<TokenView> {
        self.available(chain_id).filter(finds(query))
    }

    /// The chains that have something to fingerprint: a row in the catalogue or a snapshot that is
    /// offered. The pinned tokens never change and need no fingerprint.
    pub open spec fn digest_chains(self) -> Seq<u64> {
        chain_ids(self.catalogue_tokens() + self.enabled.filter(not_pinned()))
    }

    /// The fingerprint of what a chain serves.
    pub open spec fn digest(self, chain_id: u64) -> u64 {
        digest_of(fingerprint(self.rows(chain_id), self.offered(chain_id)))
    }

    /// The fingerprints of what is served, chain by chain.
    pub open spec fn digests(self) -> Map<u64, u64> {
        Map::new(|c: u64| self.digest_chains().contains(c), |c: u64| self.digest(c))
    }

    /// The same list with one more write for its directory, where there is one.
    pub open spec fn stored(self, w: WriteView) -> ListView {
        if self.backed {
            ListView { writes: self.writes.push(w), ..self }
        } else {
            self
        }
    }

    /// A configuration is taken over from what its file read as. A record comes first, since it
    /// reads as a bare configuration too. Whatever was stored was stored by somebody, also what
    /// reads as neither: the configuration stays as it is then, but it is not there to be defaulted.
    pub open spec fn config_loaded(
        self,
        record: Option<RecordView>,
        bare: Option<ConfigView>,
    ) -> ListView {
        match (record, bare) {
            (Some(r), _) => ListView {
                config: r.config,
                config_source: if r.source == ConfigSource::Unset {
                    ConfigSource::External
                } else {
                    r.source
                },
                ..self
            },
            (None, Some(c)) => ListView {
                config: c,
                config_source: ConfigSource::External,
                ..self
            },
            (None, None) => ListView { config_source: ConfigSource::External, ..self },
        }
    }

    /// What was stored is taken over, file by file; a file that is absent changes nothing.
    pub open spec fn loaded(self, dir: DirView) -> ListView {
        let configured = match dir.list_config {
            Some(c) => self.config_loaded(c.record, c.bare),
            None => self,
        };
        ListView {
            downloaded: match dir.token_cache {
                Some(t) => t,
                None => self.downloaded,
            },
            custom: match dir.custom_tokens {
                Some(t) => t,
                None => self.custom,
            },
            enabled: match dir.enabled_tokens {
                Some(t) => t,
                None => self.enabled,
            },
            ..configured
        }
    }

    /// A list with a directory behind it, as it is opened.
    pub open spec fn opened(dir: DirView, shipped: Seq<TokenView>) -> ListView {
        ListView { backed: true, ..ListView::fresh(shipped) }.loaded(dir)
    }

    /// A configuration is stored, with who wrote it.
    pub open spec fn with_config(self, config: ConfigView, source: ConfigSource) -> ListView {
        ListView { config, config_source: source, ..self }.stored(
            WriteView::ListConfig(RecordView { source, config }),
        )
    }

    /// Where nothing has been set, the configuration in force is the built-in one.
    pub open spec fn defaults_while_unset(self) -> bool {
        self.config_source == ConfigSource::Unset ==> self.config == ConfigView::defaults()
    }

    /// Storing this configuration as somebody's own would change nothing.
    pub open spec fn holds(self, config: ConfigView) -> bool {
        self.config == config && self.config_source == ConfigSource::External
    }

    /// A configuration is stored as somebody's own, unless that would change nothing.
    pub open spec fn configured(self, config: ConfigView) -> ListView {
        if self.holds(config) {
            self
        } else {
            self.with_config(config, ConfigSource::External)
        }
    }

    /// The built-in defaults are stored, where nothing has been.
    pub open spec fn defaulted(self) -> ListView {
        if self.config_source != ConfigSource::Unset {
            self
        } else {
            self.with_config(ConfigView::defaults(), ConfigSource::Default)
        }
    }

    /// The user's own tokens are replaced and stored.
    pub open spec fn with_custom(self, custom: Seq<TokenView>) -> ListView {
        ListView { custom, ..self }.stored(WriteView::CustomTokens(custom))
    }

    /// One of the user's own tokens is added or replaced.
    pub open spec fn custom_added(self, t: TokenView) -> ListView {
        if self.custom.contains(t) {
            self
        } else {
            self.with_custom(upserted(self.custom, t))
        }
    }

    /// The user's own token for an address is dropped.
    pub open spec fn custom_removed(self, chain_id: u64, address: Seq<char>) -> ListView {
        let left = without(self.custom, (chain_id, normalized(address)));
        if left.len() == self.custom.len() {
            self
        } else {
            self.with_custom(left)
        }
    }

    /// The user's own tokens once those of a list have been taken in.
    pub open spec fn imported_custom(self, tokens: Seq<TokenView>, replace: bool) -> Seq<TokenView> {
        merged(
            if replace {
                Seq::empty()
            } else {
                self.custom
            },
            tokens,
        )
    }

    /// The tokens of a document are taken into the user's own. A text that is no document, or a
    /// document that brings nothing new, changes nothing.
    pub open spec fn imported(self, doc: Result<DocView, Seq<char>>, replace: bool) -> ListView {
        match parsed(doc) {
            Ok((_, tokens)) => {
                let custom = self.imported_custom(tokens, replace);
                if custom == self.custom {
                    self
                } else {
                    self.with_custom(custom)
                }
            },
            Err(_) => self,
        }
    }

    /// How many tokens the user has of their own after an import, or why there was none.
    pub open spec fn import_reply(self, doc: Result<DocView, Seq<char>>, replace: bool) -> Result<
        nat,
        TokenErrorView,
    > {
        match parsed(doc) {
            Ok((_, tokens)) => Ok(self.imported_custom(tokens, replace).len()),
            Err(e) => Err(e),
        }
    }

    /// The enabled snapshots are replaced and stored.
    pub open spec fn with_enabled(self, enabled: Seq<TokenView>) -> ListView {
        ListView { enabled, ..self }.stored(WriteView::EnabledTokens(enabled))
    }

    /// A token is enabled or disabled. Enabling takes a snapshot of the row that the catalogue
    /// serves; disabling drops the snapshot. A pinned token is enabled as it is.
    pub open spec fn toggled(self, chain_id: u64, address: Seq<char>, enable: bool) -> ListView {
        if pins(chain_id, address) {
            self
        } else if enable {
            match self.listed(chain_id, address) {
                Some(t) => if self.enabled.contains(t) {
                    self
                } else {
                    self.with_enabled(upserted(self.enabled, t))
                },
                None => self,
            }
        } else {
            let left = without(self.enabled, (chain_id, normalized(address)));
            if left.len() == self.enabled.len() {
                self
            } else {
                self.with_enabled(left)
            }
        }
    }

    /// Whether enabling or disabling a token changes what is stored, or why it cannot be done.
    pub open spec fn toggle_reply(self, chain_id: u64, address: Seq<char>, enable: bool) -> Result<
        bool,
        OfferedError,
    > {
        if pins(chain_id, address) {
            if enable {
                Ok(false)
            } else {
                Err(OfferedError::Pinned)
            }
        } else if enable {
            match self.listed(chain_id, address) {
                Some(t) => Ok(!self.enabled.contains(t)),
                None => Err(OfferedError::NotListed),
            }
        } else {
            Ok(
                without(self.enabled, (chain_id, normalized(address))).len()
                    != self.enabled.len(),
            )
        }
    }

    /// What a refresh under the present configuration is to do.
    pub open spec fn plan(self) -> PlanView {
        PlanView {
            list_urls: self.config.list_urls,
            proxy: ProxyView {
                proxy: self.config.proxy,
                required: self.config.proxy_required,
                timeout_secs: self.config.timeout_secs,
            },
        }
    }

    /// What was fetched takes the place of what was downloaded before. A refresh that may not
    /// fetch, or that could not begin to, changes nothing.
    pub open spec fn refreshed(
        self,
        plan: PlanView,
        fetched: Result<Seq<FetchedView>, Seq<char>>,
    ) -> ListView {
        if plan.proxy.closed() {
            self
        } else {
            match fetched {
                Ok(lists) => {
                    let sources = sources_of(plan.list_urls, lists);
                    let downloaded = downloads(lists, sources.len());
                    if downloaded == self.downloaded {
                        ListView { sources, ..self }
                    } else {
                        ListView { sources, downloaded, ..self }.stored(
                            WriteView::TokenCache(downloaded),
                        )
                    }
                },
                Err(_) => self,
            }
        }
    }

    /// How many tokens are downloaded after a refresh. One that may not fetch, or that could not
    /// begin to, fails with a proxy error; a list that could not be had is no failure of the
    /// refresh.
    pub open spec fn refresh_reply(
        self,
        plan: PlanView,
        fetched: Result<Seq<FetchedView>, Seq<char>>,
    ) -> Result<nat, TokenErrorView> {
        match plan.proxy.route() {
            Ok(_) => match fetched {
                Ok(lists) => Ok(downloads(lists, sources_of(plan.list_urls, lists).len()).len()),
                Err(words) => Err(TokenErrorView::Proxy(words)),
            },
            Err(e) => Err(e),
        }
    }
}

} // verus!
