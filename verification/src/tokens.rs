//! The token list: configuration, the buckets of tokens, and what is served of them.
use std::collections::BTreeMap;

use vstd::prelude::*;

use crate::catalogue::{
    ascending, chain_ids, has_address, has_key, insert_chain, key, labelled, lemma_chain_ids,
    lemma_filter_empty, lemma_filter_push, lemma_last_of_key_is, lemma_served_push, lemma_without,
    lemma_without_push, merged, on_chain, served, without,
};
use crate::config::{ConfigRecord, ConfigSource, ListConfig};
use crate::digest::{chain_digest, ChainDigests};
use crate::model::{
    all_normalized, among, downloads, finds, is_on, not_among, not_pinned, offered_on, page,
    row_tokens, rows_of_chains, source_of, sources_of, FetchedView, ListView, PlanView,
};
use crate::offered::{
    enabled_views, is_pinned, pinned, pins, EnabledTokenRow, EnabledView, OfferedError,
};
use crate::proxy::ProxyConfig;
use crate::store::{write_views, StoreDir, StoreWrite, StoredConfig};
use crate::text::{contains, norm, normalized};
use crate::token::{
    clone_text, clone_texts, clone_tokens, doc_view, list_view, parse_list, row_views, same_tokens,
    source_views, texts, views, ListSource, RowView, Token, TokenError, TokenErrorView,
    TokenListDoc, TokenRow, TokenSource, TokenView,
};

verus! {

/// Row counts per bucket.
#[derive(Clone, Copy, Debug, PartialEq, Eq, Structural)]
pub struct Counts {
    pub embedded: usize,
    pub downloaded: usize,
    pub custom: usize,
}

/// What fetching one list came to: its name and tokens, or why there are none.
pub type Fetched = Result<(String, Vec<Token>), TokenError>;

/// What a refresh is to fetch, and how.
#[derive(Debug)]
pub struct RefreshPlan {
    pub list_urls: Vec<String>,
    pub proxy: ProxyConfig,
}

impl View for RefreshPlan {
    type V = PlanView;

    open spec fn view(&self) -> PlanView {
        PlanView { list_urls: texts(self.list_urls@), proxy: self.proxy@ }
    }
}

/// What fetching the lists of a plan came to, one by one.
pub open spec fn fetched_lists(fetched: Seq<Fetched>) -> Seq<FetchedView> {
    fetched.map_values(|f: Fetched| list_view(f))
}

/// What fetching a plan came to: the lists, or why the fetch could not begin.
pub open spec fn fetched_view(fetched: Result<Vec<Fetched>, String>) -> Result<
    Seq<FetchedView>,
    Seq<char>,
> {
    match fetched {
        Ok(lists) => Ok(fetched_lists(lists@)),
        Err(e) => Err(e@),
    }
}

/// What an operation that counts tokens came to.
pub open spec fn count_view(r: Result<usize, TokenError>) -> Result<nat, TokenErrorView> {
    match r {
        Ok(n) => Ok(n as nat),
        Err(e) => Err(e@),
    }
}

/// Token list manager: configuration, the downloaded, custom and shipped tokens, and the
/// snapshots of those that are enabled.
pub struct TokenList {
    config: ListConfig,
    config_source: ConfigSource,
    sources: Vec<ListSource>,
    downloaded: Vec<Token>,
    custom: Vec<Token>,
    enabled: Vec<Token>,
    shipped: Vec<Token>,
    backed: bool,
    writes: Vec<StoreWrite>,
}

impl View for TokenList {
    type V = ListView;

    closed spec fn view(&self) -> ListView {
        ListView {
            config: self.config@,
            config_source: self.config_source,
            sources: source_views(self.sources@),
            downloaded: views(self.downloaded@),
            custom: views(self.custom@),
            enabled: views(self.enabled@),
            shipped: views(self.shipped@),
            backed: self.backed,
            writes: write_views(self.writes@),
        }
    }
}

/// Whether a list of texts has `s` in it.
fn has_text(list: &Vec<String>, s: &String) -> (r: bool)
    ensures
        r == texts(list@).contains(s@),
{
    let mut i: usize = 0;
    while i < list.len()
        invariant
            i <= list.len(),
            forall|j: int| 0 <= j < i ==> texts(list@)[j] != s@,
        decreases list.len() - i,
    {
        if list[i] == *s {
            assert(texts(list@)[i as int] == s@);
            return true;
        }
        i = i + 1;
    }
    false
}

/// The rows of a bucket that are served join those of the buckets before it, `all`; `seen` holds
/// the addresses that are taken.
fn take_bucket(
    out: &mut Vec<TokenRow>,
    seen: &mut Vec<String>,
    bucket: &[Token],
    source: TokenSource,
    chain_id: u64,
    want: Option<&Vec<String>>,
    Ghost(all): Ghost<Seq<RowView>>,
    Ghost(asked): Ghost<Option<Seq<Seq<char>>>>,
)
    requires
        asked == match want {
            Some(w) => Some(texts(w@)),
            None => None,
        },
        row_views(old(out)@) == served(all, chain_id, asked),
        texts(old(seen)@) == row_views(old(out)@).map_values(
            |r: RowView| normalized(r.token.address),
        ),
    ensures
        row_views(final(out)@) == served(
            all + labelled(views(bucket@), source),
            chain_id,
            asked,
        ),
        texts(final(seen)@) == row_views(final(out)@).map_values(
            |r: RowView| normalized(r.token.address),
        ),
{
    let ghost rows = labelled(views(bucket@), source);
    let mut i: usize = 0;
    assert(all + rows.take(0) =~= all);
    while i < bucket.len()
        invariant
            i <= bucket.len(),
            rows == labelled(views(bucket@), source),
            asked == match want {
                Some(w) => Some(texts(w@)),
                None => None,
            },
            row_views(out@) == served(all + rows.take(i as int), chain_id, asked),
            texts(seen@) == row_views(out@).map_values(|r: RowView| normalized(r.token.address)),
        decreases bucket.len() - i,
    {
        let t = &bucket[i];
        let ghost row = RowView { token: t@, source };
        proof {
            assert(rows[i as int] == row);
            assert(all + rows.take(i + 1) =~= (all + rows.take(i as int)).push(row));
            lemma_served_push(all + rows.take(i as int), row, chain_id, asked);
        }
        if t.chain_id == chain_id {
            let k = norm(t.address.as_str());
            let asked_for = match want {
                Some(w) => has_text(w, &k),
                None => true,
            };
            if asked_for {
                let taken = has_text(seen, &k);
                proof {
                    let now = row_views(out@);
                    if taken {
                        let j = choose|j: int| 0 <= j < seen.len() && texts(seen@)[j] == k@;
                        assert(normalized(now[j].token.address) == k@);
                    }
                    if has_address(now, k@) {
                        let j = choose|j: int|
                            0 <= j < now.len() && normalized(#[trigger] now[j].token.address)
                                == k@;
                        assert(texts(seen@)[j] == k@);
                    }
                    assert(taken == has_address(now, k@));
                }
                if !taken {
                    let ghost now = row_views(out@);
                    let ghost keys = texts(seen@);
                    out.push(TokenRow { token: t.clone(), source });
                    seen.push(k);
                    assert(row_views(out@) =~= now.push(row));
                    assert(texts(seen@) =~= keys.push(normalized(row.token.address)));
                    assert(texts(seen@) =~= row_views(out@).map_values(
                        |r: RowView| normalized(r.token.address),
                    ));
                }
            }
        }
        i = i + 1;
    }
    assert(rows.take(i as int) =~= rows);
}

/// Whether a list of tokens has `token` in it, to the letter.
fn has_token(tokens: &Vec<Token>, token: &Token) -> (r: bool)
    ensures
        r == views(tokens@).contains(token@),
{
    let mut i: usize = 0;
    while i < tokens.len()
        invariant
            i <= tokens.len(),
            forall|j: int| 0 <= j < i ==> views(tokens@)[j] != token@,
        decreases tokens.len() - i,
    {
        if tokens[i] == *token {
            assert(views(tokens@)[i as int] == token@);
            return true;
        }
        i = i + 1;
    }
    false
}

/// Whether some row has a normalised address.
fn rows_have(rows: &Vec<TokenRow>, address: &String) -> (r: bool)
    ensures
        r == has_address(row_views(rows@), address@),
{
    let mut i: usize = 0;
    while i < rows.len()
        invariant
            i <= rows.len(),
            forall|j: int|
                0 <= j < i ==> normalized(#[trigger] row_views(rows@)[j].token.address)
                    != address@,
        decreases rows.len() - i,
    {
        assert(row_views(rows@)[i as int] == rows@[i as int]@);
        if norm(rows[i].token.address.as_str()) == *address {
            assert(normalized(row_views(rows@)[i as int].token.address) == address@);
            return true;
        }
        i = i + 1;
    }
    false
}

/// A copy of `tokens` without those of one key.
fn drop_key(tokens: &Vec<Token>, chain_id: u64, address: &String) -> (r: Vec<Token>)
    ensures
        views(r@) == without(views(tokens@), (chain_id, address@)),
{
    let ghost all = views(tokens@);
    let ghost k = (chain_id, address@);
    let mut r: Vec<Token> = Vec::new();
    let mut i: usize = 0;
    proof {
        lemma_without(all.take(0), k);
        assert(views(r@) =~= all.take(0));
    }
    while i < tokens.len()
        invariant
            i <= tokens.len(),
            all == views(tokens@),
            k == (chain_id, address@),
            views(r@) == without(all.take(i as int), k),
        decreases tokens.len() - i,
    {
        let t = &tokens[i];
        proof {
            assert(all.take(i + 1) =~= all.take(i as int).push(t@));
            lemma_without_push(all.take(i as int), t@, k);
        }
        let same = t.chain_id == chain_id && norm(t.address.as_str()) == *address;
        if !same {
            let ghost before = views(r@);
            r.push(t.clone());
            assert(views(r@) =~= before.push(t@));
        }
        i = i + 1;
    }
    assert(all.take(i as int) =~= all);
    r
}

/// Puts the chains of some tokens in their places in an ascending list.
fn add_chains(list: &mut Vec<u64>, tokens: &[Token], Ghost(before): Ghost<Seq<TokenView>>)
    requires
        old(list)@ == chain_ids(before),
    ensures
        final(list)@ == chain_ids(before + views(tokens@)),
{
    let ghost more = views(tokens@);
    let mut i: usize = 0;
    assert(before + more.take(0) =~= before);
    while i < tokens.len()
        invariant
            i <= tokens.len(),
            more == views(tokens@),
            list@ == chain_ids(before + more.take(i as int)),
        decreases tokens.len() - i,
    {
        proof {
            lemma_chain_ids(before + more.take(i as int));
            let next = before + more.take(i + 1);
            assert(next.drop_last() =~= before + more.take(i as int));
            assert(next.last() == tokens@[i as int]@);
        }
        insert_chain(list, tokens[i].chain_id);
        i = i + 1;
    }
    assert(more.take(i as int) =~= more);
}

/// Merges `more` into `tokens`, each over the last token of its key, or at the end.
fn merge_tokens(tokens: &mut Vec<Token>, more: Vec<Token>)
    ensures
        views(final(tokens)@) == merged(views(old(tokens)@), views(more@)),
{
    let ghost start = views(tokens@);
    let ghost adding = views(more@);
    let mut keys: Vec<String> = Vec::new();
    let mut i: usize = 0;
    while i < tokens.len()
        invariant
            i <= tokens.len(),
            keys.len() == i,
            forall|j: int| 0 <= j < i ==> #[trigger] keys@[j]@ == normalized(tokens@[j].address@),
        decreases tokens.len() - i,
    {
        keys.push(norm(tokens[i].address.as_str()));
        i = i + 1;
    }
    i = 0;
    assert(adding.take(0) =~= Seq::empty());
    while i < more.len()
        invariant
            i <= more.len(),
            adding == views(more@),
            keys.len() == tokens.len(),
            forall|j: int|
                0 <= j < tokens.len() ==> #[trigger] keys@[j]@ == normalized(
                    tokens@[j].address@,
                ),
            views(tokens@) == merged(start, adding.take(i as int)),
        decreases more.len() - i,
    {
        let t = more[i].clone();
        let k = norm(t.address.as_str());
        let ghost now = views(tokens@);
        let ghost tk = key(t@);
        proof {
            assert(adding.take(i + 1).drop_last() =~= adding.take(i as int));
            assert(adding.take(i + 1).last() == t@);
        }
        let mut at: usize = tokens.len();
        let mut found = false;
        while at > 0 && !found
            invariant
                at <= tokens.len(),
                keys.len() == tokens.len(),
                now == views(tokens@),
                tk == key(t@),
                k@ == normalized(t.address@),
                forall|j: int|
                    0 <= j < tokens.len() ==> #[trigger] keys@[j]@ == normalized(
                        tokens@[j].address@,
                    ),
                found ==> at < tokens.len() && key(now[at as int]) == tk && forall|j: int|
                    at < j < now.len() ==> key(#[trigger] now[j]) != tk,
                !found ==> forall|j: int| at <= j < now.len() ==> key(#[trigger] now[j]) != tk,
            decreases at,
        {
            at = at - 1;
            assert(now[at as int] == tokens@[at as int]@);
            assert(keys@[at as int]@ == normalized(tokens@[at as int].address@));
            if tokens[at].chain_id == t.chain_id && keys[at] == k {
                found = true;
            }
        }
        if found {
            proof {
                lemma_last_of_key_is(now, tk, at as int);
            }
            keys.set(at, k);
            tokens.set(at, t);
            assert(views(tokens@) =~= now.update(at as int, t@));
        } else {
            proof {
                lemma_last_of_key_is(now, tk, -1);
            }
            keys.push(k);
            tokens.push(t);
            assert(views(tokens@) =~= now.push(t@));
        }
        i = i + 1;
    }
    assert(adding.take(i as int) =~= adding);
}

impl TokenList {
    /// A list with nothing in it but the tokens shipped with the module, and no directory behind
    /// it.
    pub fn new(shipped: Vec<Token>) -> (r: Self)
        ensures
            r@ == ListView::fresh(views(shipped@)),
    {
        let r = TokenList {
            config: ListConfig::default(),
            config_source: ConfigSource::Unset,
            sources: Vec::new(),
            downloaded: Vec::new(),
            custom: Vec::new(),
            enabled: Vec::new(),
            shipped,
            backed: false,
            writes: Vec::new(),
        };
        assert(r@ =~= ListView::fresh(views(shipped@)));
        r
    }

    /// Opens a list with a persistence directory behind it, from what the directory holds.
    pub fn with_dir(dir: StoreDir, shipped: Vec<Token>) -> (r: Self)
        ensures
            r@ == ListView::opened(dir@, views(shipped@)),
    {
        let mut s = Self::new(shipped);
        s.backed = true;
        assert(s@ =~= ListView { backed: true, ..ListView::fresh(views(shipped@)) });
        s.load(dir);
        s
    }

    /// Takes over what the persistence directory holds.
    fn load(&mut self, dir: StoreDir)
        ensures
            final(self)@ == old(self)@.loaded(dir@),
    {
        if let Some(c) = dir.list_config {
            self.load_config(c);
        }
        if let Some(t) = dir.token_cache {
            self.downloaded = t;
        }
        if let Some(t) = dir.custom_tokens {
            self.custom = t;
        }
        if let Some(t) = dir.enabled_tokens {
            self.enabled = t;
        }
        assert(self@ =~= old(self)@.loaded(dir@));
    }

    /// Takes over a stored configuration: a record first, since a bare configuration ignores keys
    /// it does not know and would swallow one. What reads as bare only, or as nothing, was written
    /// by somebody, and is not to be taken for a default.
    fn load_config(&mut self, stored: StoredConfig)
        ensures
            final(self)@ == old(self)@.config_loaded(stored@.record, stored@.bare),
    {
        if let Some(rec) = stored.record {
            self.config = rec.config;
            self.config_source = match rec.source {
                ConfigSource::Unset => ConfigSource::External,
                s => s,
            };
        } else if let Some(cfg) = stored.bare {
            self.config = cfg;
            self.config_source = ConfigSource::External;
        } else {
            self.config_source = ConfigSource::External;
        }
        assert(self@ =~= old(self)@.config_loaded(stored@.record, stored@.bare));
    }

    /// Adds a write for the directory, where there is one.
    fn write(&mut self, w: StoreWrite)
        ensures
            final(self)@ == old(self)@.stored(w@),
    {
        if self.backed {
            self.writes.push(w);
            assert(write_views(self.writes@) =~= old(self)@.writes.push(w@));
        }
        assert(self@ =~= old(self)@.stored(w@));
    }

    /// Hands over the writes that the directory has yet to see, in the order in which they are to
    /// be made.
    pub fn take_writes(&mut self) -> (r: Vec<StoreWrite>)
        ensures
            write_views(r@) == old(self)@.writes,
            final(self)@ == (ListView { writes: Seq::empty(), ..old(self)@ }),
    {
        let mut r: Vec<StoreWrite> = Vec::new();
        std::mem::swap(&mut r, &mut self.writes);
        assert(self@ =~= ListView { writes: Seq::empty(), ..old(self)@ });
        r
    }

    /// Stores a configuration. Returns whether anything moved: sending the stored record again
    /// writes nothing. That the source becomes `external` counts as a move of its own, since it is
    /// what stops a later `init_defaults`.
    pub fn configure(&mut self, config: ListConfig) -> (r: bool)
        ensures
            final(self)@ == old(self)@.configured(config@),
            r == !old(self)@.holds(config@),
    {
        if self.config == config && self.config_source == ConfigSource::External {
            return false;
        }
        self.set_config(config, ConfigSource::External);
        true
    }

    /// Stores a configuration with who wrote it.
    fn set_config(&mut self, config: ListConfig, source: ConfigSource)
        ensures
            final(self)@ == old(self)@.with_config(config@, source),
    {
        let rec = ConfigRecord { source, config: config.clone() };
        self.config = config;
        self.config_source = source;
        assert(self@ =~= ListView { config: config@, config_source: source, ..old(self)@ });
        self.write(StoreWrite::ListConfig(rec));
    }

    /// Applies the built-in defaults, but only where nothing is configured: a configuration file
    /// that exists is never written over, whatever it holds. Returns whether they were applied.
    pub fn init_defaults(&mut self) -> (r: bool)
        ensures
            final(self)@ == old(self)@.defaulted(),
            r == (old(self)@.config_source == ConfigSource::Unset),
    {
        if self.config_source != ConfigSource::Unset {
            return false;
        }
        self.set_config(ListConfig::default(), ConfigSource::Default);
        true
    }

    /// The configuration in force.
    pub fn config(&self) -> (r: &ListConfig)
        ensures
            r@ == self@.config,
    {
        &self.config
    }

    /// Who wrote the configuration.
    pub fn config_source(&self) -> (r: ConfigSource)
        ensures
            r == self@.config_source,
    {
        self.config_source
    }

    /// How many tokens each bucket holds.
    pub fn counts(&self) -> (r: Counts)
        ensures
            r.embedded == self@.embedded().len(),
            r.downloaded == self@.downloaded.len(),
            r.custom == self@.custom.len(),
    {
        Counts {
            embedded: self.embedded().len(),
            downloaded: self.downloaded.len(),
            custom: self.custom.len(),
        }
    }

    /// How often the list is to be refreshed, in seconds; zero is never.
    pub fn refresh_secs(&self) -> (r: u64)
        ensures
            r == self@.config.refresh_secs,
    {
        self.config.refresh_secs
    }

    /// The shipped floor, empty where the configuration turns it off.
    fn embedded(&self) -> (r: &[Token])
        ensures
            views(r@) == self@.embedded(),
    {
        if self.config.use_embedded_list {
            self.shipped.as_slice()
        } else {
            assert(self@.embedded() =~= views(Seq::empty()));
            &[]
        }
    }

    /// What a refresh is to fetch, and how. It takes nothing out of the list, so that the fetch
    /// itself can be made while others use the list.
    pub fn refresh_plan(&self) -> (r: RefreshPlan)
        ensures
            r@ == self@.plan(),
    {
        RefreshPlan {
            list_urls: clone_texts(&self.config.list_urls),
            proxy: ProxyConfig::new(
                clone_text(&self.config.proxy),
                self.config.proxy_required,
                self.config.timeout_secs,
            ),
        }
    }

    /// Replaces the downloaded tokens by those that were fetched, and notes how each URL fared.
    /// Returns how many there are now. Where the plan fails closed nothing changes, whatever is
    /// said to have been fetched. Whatever kept the fetch from beginning is a proxy error.
    pub fn apply_refresh(
        &mut self,
        plan: &RefreshPlan,
        fetched: Result<Vec<Fetched>, String>,
    ) -> (r: Result<usize, TokenError>)
        ensures
            final(self)@ == old(self)@.refreshed(plan@, fetched_view(fetched)),
            count_view(r) == old(self)@.refresh_reply(plan@, fetched_view(fetched)),
            r matches Err(e) ==> e is Proxy && final(self)@ == old(self)@,
    {
        if let Err(e) = plan.proxy.route() {
            return Err(e);
        }
        let fetched = match fetched {
            Ok(f) => f,
            Err(words) => {
                return Err(TokenError::Proxy(words));
            },
        };
        let ghost urls = texts(plan.list_urls@);
        let ghost lists = fetched_lists(fetched@);
        let mut merged: Vec<Token> = Vec::new();
        let mut sources: Vec<ListSource> = Vec::new();
        assert(views(merged@) =~= downloads(lists, 0));
        let mut i: usize = 0;
        while i < plan.list_urls.len() && i < fetched.len()
            invariant
                i <= plan.list_urls.len(),
                i <= fetched.len(),
                urls == texts(plan.list_urls@),
                lists == fetched_lists(fetched@),
                views(merged@) == downloads(lists, i as nat),
                sources.len() == i,
                forall|j: int| 0 <= j < i ==> #[trigger] sources@[j]@ == source_of(urls[j], lists[j]),
            decreases fetched.len() - i,
        {
            let url = &plan.list_urls[i];
            assert(lists[i as int] == list_view(fetched@[i as int]));
            assert(urls[i as int] == url@);
            match &fetched[i] {
                Ok(list) => {
                    let ghost before = views(merged@);
                    let (name, tokens) = (&list.0, &list.1);
                    sources.push(
                        ListSource {
                            url: url.clone(),
                            name: name.clone(),
                            token_count: tokens.len(),
                            ok: true,
                            error: None,
                        },
                    );
                    let mut more = clone_tokens(tokens);
                    merged.append(&mut more);
                    assert(views(merged@) =~= before + views(tokens@));
                },
                Err(e) => {
                    sources.push(
                        ListSource {
                            url: url.clone(),
                            name: String::new(),
                            token_count: 0,
                            ok: false,
                            error: Some(e.message()),
                        },
                    );
                },
            }
            i = i + 1;
        }
        assert(source_views(sources@) =~= sources_of(urls, lists));
        self.sources = sources;
        assert(self@ =~= ListView { sources: sources_of(urls, lists), ..old(self)@ });
        if !same_tokens(&merged, &self.downloaded) {
            let copy = clone_tokens(&merged);
            self.downloaded = merged;
            assert(self@ =~= ListView {
                sources: sources_of(urls, lists),
                downloaded: downloads(lists, i as nat),
                ..old(self)@
            });
            self.write(StoreWrite::TokenCache(copy));
        }
        Ok(self.downloaded.len())
    }

    /// Refreshes the list from what fetching its URLs came to, one for each of them in order. It
    /// fails only where the fetch could not begin, with a proxy error, and then changes nothing.
    pub fn refresh_now(&mut self, fetched: Result<Vec<Fetched>, String>) -> (r: Result<
        usize,
        TokenError,
    >)
        ensures
            final(self)@ == old(self)@.refreshed(old(self)@.plan(), fetched_view(fetched)),
            count_view(r) == old(self)@.refresh_reply(old(self)@.plan(), fetched_view(fetched)),
            r matches Err(e) ==> e is Proxy && final(self)@ == old(self)@,
    {
        let plan = self.refresh_plan();
        self.apply_refresh(&plan, fetched)
    }

    /// The rows of a chain, merged in the order custom, downloaded, embedded, one for each
    /// address: the user's own entry wins, then a list they refreshed, then the floor.
    pub fn get_tokens(&self, chain_id: u64) -> (r: Vec<TokenRow>)
        ensures
            row_views(r@) == self@.rows(chain_id),
    {
        self.rows(chain_id, None, Ghost(None))
    }

    /// The rows of some addresses only, whatever their case.
    pub fn get_tokens_by_address(&self, chain_id: u64, addresses: &[String]) -> (r: Vec<TokenRow>)
        ensures
            row_views(r@) == self@.rows_at(chain_id, texts(addresses@)),
    {
        let mut want: Vec<String> = Vec::new();
        let mut i: usize = 0;
        while i < addresses.len()
            invariant
                i <= addresses.len(),
                want.len() == i,
                forall|j: int| 0 <= j < i ==> #[trigger] want@[j]@ == normalized(addresses@[j]@),
            decreases addresses.len() - i,
        {
            want.push(norm(addresses[i].as_str()));
            i = i + 1;
        }
        assert(texts(want@) =~= all_normalized(texts(addresses@)));
        self.rows(chain_id, Some(&want), Ghost(Some(texts(want@))))
    }

    /// The rows of a chain, those of the asked addresses only where there is a list of them.
    fn rows(
        &self,
        chain_id: u64,
        want: Option<&Vec<String>>,
        Ghost(asked): Ghost<Option<Seq<Seq<char>>>>,
    ) -> (out: Vec<TokenRow>)
        requires
            asked == match want {
                Some(w) => Some(texts(w@)),
                None => None,
            },
        ensures
            row_views(out@) == served(self@.catalogue(), chain_id, asked),
    {
        let ghost none = Seq::<RowView>::empty();
        let ghost custom = labelled(self@.custom, TokenSource::Custom);
        let ghost downloaded = labelled(self@.downloaded, TokenSource::Downloaded);
        let ghost embedded = labelled(self@.embedded(), TokenSource::Embedded);
        let mut seen: Vec<String> = Vec::new();
        let mut out: Vec<TokenRow> = Vec::new();
        assert(row_views(out@) =~= served(none, chain_id, asked));
        assert(texts(seen@) =~= row_views(out@).map_values(
            |r: RowView| normalized(r.token.address),
        ));
        take_bucket(
            &mut out,
            &mut seen,
            self.custom.as_slice(),
            TokenSource::Custom,
            chain_id,
            want,
            Ghost(none),
            Ghost(asked),
        );
        assert(none + custom =~= custom);
        take_bucket(
            &mut out,
            &mut seen,
            self.downloaded.as_slice(),
            TokenSource::Downloaded,
            chain_id,
            want,
            Ghost(custom),
            Ghost(asked),
        );
        take_bucket(
            &mut out,
            &mut seen,
            self.embedded(),
            TokenSource::Embedded,
            chain_id,
            want,
            Ghost(custom + downloaded),
            Ghost(asked),
        );
        out
    }

    /// The rows of every chain, in ascending order of the chains.
    pub fn get_all_tokens(&self) -> (r: Vec<TokenRow>)
        ensures
            row_views(r@) == self@.all_rows(),
    {
        let chains = self.chains();
        let ghost all = self@.catalogue();
        let mut r: Vec<TokenRow> = Vec::new();
        let mut i: usize = 0;
        assert(row_views(r@) =~= rows_of_chains(all, chains@.take(0)));
        while i < chains.len()
            invariant
                i <= chains.len(),
                all == self@.catalogue(),
                row_views(r@) == rows_of_chains(all, chains@.take(i as int)),
            decreases chains.len() - i,
        {
            let ghost before = row_views(r@);
            let mut rows = self.get_tokens(chains[i]);
            let ghost more = row_views(rows@);
            r.append(&mut rows);
            assert(row_views(r@) =~= before + more);
            assert(chains@.take(i + 1).drop_last() =~= chains@.take(i as int));
            i = i + 1;
        }
        assert(chains@.take(i as int) =~= chains@);
        r
    }

    /// Adds or replaces one of the user's own tokens. Returns whether the stored list moved; to add
    /// a token again as it is moves nothing.
    pub fn add_custom_token(&mut self, token: Token) -> (r: bool)
        ensures
            final(self)@ == old(self)@.custom_added(token@),
            r == !old(self)@.custom.contains(token@),
    {
        if has_token(&self.custom, &token) {
            return false;
        }
        let k = norm(token.address.as_str());
        let mut custom = drop_key(&self.custom, token.chain_id, &k);
        let ghost rest = views(custom@);
        custom.push(token);
        assert(views(custom@) =~= rest.push(token@));
        self.set_custom(custom);
        true
    }

    /// Replaces the user's own tokens and stores them.
    fn set_custom(&mut self, custom: Vec<Token>)
        ensures
            final(self)@ == old(self)@.with_custom(views(custom@)),
    {
        let copy = clone_tokens(&custom);
        self.custom = custom;
        assert(self@ =~= ListView { custom: views(custom@), ..old(self)@ });
        self.write(StoreWrite::CustomTokens(copy));
    }

    /// Takes the tokens of one document into the user's own list. `replace` swaps the list
    /// wholesale, otherwise the entries merge, the last one of a chain and address winning. Returns
    /// the new length.
    pub fn import_custom_tokens(
        &mut self,
        doc: Result<TokenListDoc, String>,
        replace: bool,
    ) -> (r: Result<usize, TokenError>)
        ensures
            final(self)@ == old(self)@.imported(doc_view(doc), replace),
            count_view(r) == old(self)@.import_reply(doc_view(doc), replace),
    {
        let tokens = match parse_list(doc) {
            Ok((_, tokens)) => tokens,
            Err(e) => {
                return Err(e);
            },
        };
        let mut custom: Vec<Token> = if replace {
            Vec::new()
        } else {
            clone_tokens(&self.custom)
        };
        assert(replace ==> views(custom@) =~= Seq::empty());
        merge_tokens(&mut custom, tokens);
        if same_tokens(&custom, &self.custom) {
            return Ok(self.custom.len());
        }
        self.set_custom(custom);
        Ok(self.custom.len())
    }

    /// Drops one of the user's own tokens. Returns whether there was one.
    pub fn remove_custom_token(&mut self, chain_id: u64, address: &str) -> (r: bool)
        ensures
            final(self)@ == old(self)@.custom_removed(chain_id, address@),
            r == has_key(old(self)@.custom, (chain_id, normalized(address@))),
    {
        let k = norm(address);
        let custom = drop_key(&self.custom, chain_id, &k);
        proof {
            lemma_without(self@.custom, (chain_id, k@));
        }
        let changed = custom.len() != self.custom.len();
        if changed {
            self.set_custom(custom);
        }
        changed
    }

    /// The distinct chain ids of every bucket, in ascending order.
    pub fn chains(&self) -> (r: Vec<u64>)
        ensures
            r@ == self@.chains(),
            ascending(r@),
            forall|c: u64| #[trigger] r@.contains(c) <==> on_chain(self@.catalogue_tokens(), c),
    {
        let mut c: Vec<u64> = Vec::new();
        let ghost none = Seq::<TokenView>::empty();
        add_chains(&mut c, self.custom.as_slice(), Ghost(none));
        assert(none + self@.custom =~= self@.custom);
        add_chains(&mut c, self.downloaded.as_slice(), Ghost(self@.custom));
        add_chains(&mut c, self.embedded(), Ghost(self@.custom + self@.downloaded));
        proof {
            lemma_chain_ids(self@.catalogue_tokens());
        }
        c
    }

    /// The user's own tokens.
    pub fn get_custom_tokens(&self) -> (r: &[Token])
        ensures
            views(r@) == self@.custom,
    {
        self.custom.as_slice()
    }

    /// How the last refresh went, URL by URL.
    pub fn get_list_sources(&self) -> (r: &[ListSource])
        ensures
            source_views(r@) == self@.sources,
    {
        self.sources.as_slice()
    }

    /// The snapshots of a chain, each with whether the catalogue still describes its address.
    pub fn get_enabled_tokens(&self, chain_id: u64) -> (r: Vec<EnabledTokenRow>)
        ensures
            enabled_views(r@) == self@.enabled_rows(chain_id),
    {
        let rows = self.get_tokens(chain_id);
        let ghost all = self@.enabled;
        let ghost row_of = |t: TokenView|
            EnabledView {
                token: t,
                resolved: has_address(self@.rows(chain_id), normalized(t.address)),
            };
        let mut r: Vec<EnabledTokenRow> = Vec::new();
        let mut i: usize = 0;
        proof {
            lemma_filter_empty(is_on(chain_id));
            assert(all.take(0) =~= Seq::empty());
            assert(enabled_views(r@) =~= all.take(0).filter(is_on(chain_id)).map_values(row_of));
        }
        while i < self.enabled.len()
            invariant
                i <= self.enabled.len(),
                all == views(self.enabled@),
                row_views(rows@) == self@.rows(chain_id),
                row_of == (|t: TokenView|
                    EnabledView {
                        token: t,
                        resolved: has_address(self@.rows(chain_id), normalized(t.address)),
                    }),
                enabled_views(r@) == all.take(i as int).filter(is_on(chain_id)).map_values(
                    row_of,
                ),
            decreases self.enabled.len() - i,
        {
            let t = &self.enabled[i];
            let ghost before = all.take(i as int).filter(is_on(chain_id));
            proof {
                assert(all.take(i + 1) =~= all.take(i as int).push(t@));
                lemma_filter_push(all.take(i as int), t@, is_on(chain_id));
            }
            if t.chain_id == chain_id {
                let ghost done = enabled_views(r@);
                let resolved = rows_have(&rows, &norm(t.address.as_str()));
                r.push(EnabledTokenRow { token: t.clone(), resolved });
                assert(before.push(t@).map_values(row_of) =~= before.map_values(row_of).push(
                    row_of(t@),
                ));
                assert(enabled_views(r@) =~= done.push(row_of(t@)));
            }
            i = i + 1;
        }
        assert(all.take(i as int) =~= all);
        r
    }

    /// What is offered on a chain: its pinned tokens, then the enabled snapshots.
    pub fn list_offered(&self, chain_id: u64) -> (r: Vec<Token>)
        ensures
            views(r@) == self@.offered(chain_id),
    {
        let mut r = pinned(chain_id);
        let ghost first = views(r@);
        let ghost all = self@.enabled;
        let ghost p = offered_on(chain_id);
        let mut i: usize = 0;
        proof {
            lemma_filter_empty(p);
            assert(all.take(0) =~= Seq::empty());
            assert(first + all.take(0).filter(p) =~= first);
        }
        while i < self.enabled.len()
            invariant
                i <= self.enabled.len(),
                all == views(self.enabled@),
                p == offered_on(chain_id),
                views(r@) == first + all.take(i as int).filter(p),
            decreases self.enabled.len() - i,
        {
            let t = &self.enabled[i];
            let ghost before = views(r@);
            proof {
                assert(all.take(i + 1) =~= all.take(i as int).push(t@));
                lemma_filter_push(all.take(i as int), t@, p);
            }
            if t.chain_id == chain_id && !is_pinned(chain_id, t.address.as_str()) {
                r.push(t.clone());
                assert(views(r@) =~= before.push(t@));
                assert(views(r@) =~= first + all.take(i + 1).filter(p));
            }
            i = i + 1;
        }
        assert(all.take(i as int) =~= all);
        r
    }

    /// What could be offered on a chain, the offered tokens first and then the rest of the
    /// catalogue: those that a query finds, from the `offset`-th on and at most `limit` of them.
    /// Also returns how many the query finds, and how many there are without it.
    pub fn list_available(
        &self,
        chain_id: u64,
        query: &str,
        offset: usize,
        limit: Option<usize>,
    ) -> (r: (usize, usize, Vec<Token>))
        ensures
            r.0 == self@.found(chain_id, query@).len(),
            r.1 == self@.available(chain_id).len(),
            views(r.2@) == page(
                self@.found(chain_id, query@),
                offset as nat,
                match limit {
                    Some(n) => Some(n as nat),
                    None => None,
                },
            ),
    {
        let all = self.available(chain_id);
        let q = norm(query);
        let ghost tokens = views(all@);
        let ghost p = finds(query@);
        let mut hits: Vec<Token> = Vec::new();
        let mut i: usize = 0;
        proof {
            lemma_filter_empty(p);
            assert(tokens.take(0) =~= Seq::empty());
            assert(views(hits@) =~= Seq::empty());
        }
        while i < all.len()
            invariant
                i <= all.len(),
                tokens == views(all@),
                p == finds(query@),
                q@ == normalized(query@),
                views(hits@) == tokens.take(i as int).filter(p),
            decreases all.len() - i,
        {
            let t = &all[i];
            let ghost before = views(hits@);
            proof {
                assert(tokens.take(i + 1) =~= tokens.take(i as int).push(t@));
                lemma_filter_push(tokens.take(i as int), t@, p);
            }
            let hit = contains(norm(t.symbol.as_str()).as_str(), q.as_str()) || contains(
                norm(t.name.as_str()).as_str(),
                q.as_str(),
            ) || contains(norm(t.address.as_str()).as_str(), q.as_str());
            if hit {
                hits.push(t.clone());
                assert(views(hits@) =~= before.push(t@));
            }
            i = i + 1;
        }
        assert(tokens.take(i as int) =~= tokens);
        let ghost found = views(hits@);
        let total = hits.len();
        let end = match limit {
            Some(n) => if offset < total && n < total - offset {
                offset + n
            } else {
                total
            },
            None => total,
        };
        let mut shown: Vec<Token> = Vec::new();
        i = offset;
        while i < end
            invariant
                offset < total ==> offset <= i <= end,
                offset >= total ==> i == offset,
                end <= total,
                total == hits.len(),
                found == views(hits@),
                offset < total ==> views(shown@) == found.subrange(offset as int, i as int),
                offset >= total ==> shown.len() == 0,
            decreases end - i,
        {
            let ghost before = views(shown@);
            shown.push(hits[i].clone());
            assert(views(shown@) =~= before.push(found[i as int]));
            assert(views(shown@) =~= found.subrange(offset as int, i + 1));
            i = i + 1;
        }
        assert(views(shown@) =~= page(
            found,
            offset as nat,
            match limit {
                Some(n) => Some(n as nat),
                None => None,
            },
        ));
        (total, all.len(), shown)
    }

    /// What could be offered on a chain: what is, then the rest of the catalogue.
    fn available(&self, chain_id: u64) -> (r: Vec<Token>)
        ensures
            views(r@) == self@.available(chain_id),
    {
        let rows = self.get_tokens(chain_id);
        let mut r = self.list_offered(chain_id);
        let ghost offered = views(r@);
        let mut keys: Vec<String> = Vec::new();
        let mut i: usize = 0;
        while i < r.len()
            invariant
                i <= r.len(),
                offered == views(r@),
                keys.len() == i,
                forall|j: int| 0 <= j < i ==> #[trigger] keys@[j]@ == normalized(offered[j].address),
            decreases r.len() - i,
        {
            keys.push(norm(r[i].address.as_str()));
            i = i + 1;
        }
        let ghost rest = row_tokens(self@.rows(chain_id));
        let ghost p = not_among(offered);
        i = 0;
        proof {
            lemma_filter_empty(p);
            assert(rest.take(0) =~= Seq::empty());
            assert(offered + rest.take(0).filter(p) =~= offered);
        }
        while i < rows.len()
            invariant
                i <= rows.len(),
                row_views(rows@) == self@.rows(chain_id),
                rest == row_tokens(self@.rows(chain_id)),
                p == not_among(offered),
                keys.len() == offered.len(),
                forall|j: int|
                    0 <= j < keys.len() ==> #[trigger] keys@[j]@ == normalized(offered[j].address),
                views(r@) == offered + rest.take(i as int).filter(p),
            decreases rows.len() - i,
        {
            let t = &rows[i].token;
            let ghost before = views(r@);
            let k = norm(t.address.as_str());
            proof {
                assert(row_views(rows@)[i as int].token == t@);
                assert(rest.take(i + 1) =~= rest.take(i as int).push(t@));
                lemma_filter_push(rest.take(i as int), t@, p);
            }
            let taken = has_text(&keys, &k);
            proof {
                if taken {
                    let j = choose|j: int| 0 <= j < keys.len() && texts(keys@)[j] == k@;
                    assert(keys@[j]@ == normalized(offered[j].address));
                    assert(among(offered, k@));
                }
                if among(offered, k@) {
                    let j = choose|j: int|
                        0 <= j < offered.len() && normalized(#[trigger] offered[j].address) == k@;
                    assert(texts(keys@)[j] == k@);
                }
            }
            if !taken {
                r.push(t.clone());
                assert(views(r@) =~= before.push(t@));
                assert(views(r@) =~= offered + rest.take(i + 1).filter(p));
            }
            i = i + 1;
        }
        assert(rest.take(i as int) =~= rest);
        r
    }

    /// Enables or disables a token on a chain. Enabling takes a snapshot of the row that the
    /// catalogue serves; disabling drops the snapshot. A pinned token is always enabled and cannot
    /// be disabled. Returns whether what is stored moved.
    pub fn set_token_enabled(&mut self, chain_id: u64, address: &str, enabled: bool) -> (r: Result<
        bool,
        OfferedError,
    >)
        ensures
            final(self)@ == old(self)@.toggled(chain_id, address@, enabled),
            r == old(self)@.toggle_reply(chain_id, address@, enabled),
    {
        if is_pinned(chain_id, address) {
            return if enabled {
                Ok(false)
            } else {
                Err(OfferedError::Pinned)
            };
        }
        if !enabled {
            return Ok(self.remove_enabled(chain_id, address));
        }
        let mut asked: Vec<String> = Vec::new();
        asked.push(address.to_string());
        assert(texts(asked@) =~= seq![address@]);
        let rows = self.get_tokens_by_address(chain_id, asked.as_slice());
        if rows.len() == 0 {
            assert(row_views(rows@).len() == 0);
            return Err(OfferedError::NotListed);
        }
        assert(row_views(rows@)[0].token == rows@[0].token@);
        let token = rows[0].token.clone();
        if has_token(&self.enabled, &token) {
            return Ok(false);
        }
        let k = norm(token.address.as_str());
        let mut snapshots = drop_key(&self.enabled, token.chain_id, &k);
        let ghost rest = views(snapshots@);
        snapshots.push(token);
        assert(views(snapshots@) =~= rest.push(token@));
        self.set_enabled(snapshots);
        Ok(true)
    }

    /// Drops the snapshot of a token. Returns whether there was one.
    fn remove_enabled(&mut self, chain_id: u64, address: &str) -> (r: bool)
        requires
            !pins(chain_id, address@),
        ensures
            final(self)@ == old(self)@.toggled(chain_id, address@, false),
            Ok::<bool, OfferedError>(r) == old(self)@.toggle_reply(chain_id, address@, false),
    {
        let k = norm(address);
        let left = drop_key(&self.enabled, chain_id, &k);
        assert(views(left@).len() == left.len());
        assert(views(self.enabled@).len() == self.enabled.len());
        let changed = left.len() != self.enabled.len();
        if changed {
            self.set_enabled(left);
        }
        changed
    }

    /// Replaces the snapshots and stores them.
    fn set_enabled(&mut self, enabled: Vec<Token>)
        ensures
            final(self)@ == old(self)@.with_enabled(views(enabled@)),
    {
        let copy = clone_tokens(&enabled);
        self.enabled = enabled;
        assert(self@ =~= ListView { enabled: views(enabled@), ..old(self)@ });
        self.write(StoreWrite::EnabledTokens(copy));
    }

    /// The snapshots that are not of a pinned token.
    fn snapshots(&self) -> (r: Vec<Token>)
        ensures
            views(r@) == self@.enabled.filter(not_pinned()),
    {
        let ghost all = self@.enabled;
        let ghost p = not_pinned();
        let mut r: Vec<Token> = Vec::new();
        let mut i: usize = 0;
        proof {
            lemma_filter_empty(p);
            assert(all.take(0) =~= Seq::empty());
            assert(views(r@) =~= Seq::empty());
        }
        while i < self.enabled.len()
            invariant
                i <= self.enabled.len(),
                all == views(self.enabled@),
                p == not_pinned(),
                views(r@) == all.take(i as int).filter(p),
            decreases self.enabled.len() - i,
        {
            let t = &self.enabled[i];
            let ghost before = views(r@);
            proof {
                assert(all.take(i + 1) =~= all.take(i as int).push(t@));
                lemma_filter_push(all.take(i as int), t@, p);
            }
            if !is_pinned(t.chain_id, t.address.as_str()) {
                r.push(t.clone());
                assert(views(r@) =~= before.push(t@));
            }
            i = i + 1;
        }
        assert(all.take(i as int) =~= all);
        r
    }

    /// Fingerprints what is served and offered, chain by chain. Taken before and after an
    /// operation, [`crate::digest::changed_chains`] tells what it really changed.
    pub fn chain_digests(&self) -> (r: ChainDigests)
        ensures
            r@ == self@.digests(),
    {
        broadcast use vstd::std_specs::btree::group_btree_axioms;

        let mut chains = self.chains();
        let snapshots = self.snapshots();
        add_chains(&mut chains, snapshots.as_slice(), Ghost(self@.catalogue_tokens()));
        let mut digests: ChainDigests = BTreeMap::new();
        let mut i: usize = 0;
        while i < chains.len()
            invariant
                i <= chains.len(),
                chains@ == self@.digest_chains(),
                forall|c: u64|
                    #[trigger] digests@.contains_key(c) <==> chains@.take(i as int).contains(c),
                forall|c: u64| #[trigger]
                    digests@.contains_key(c) ==> digests@[c] == self@.digest(c),
            decreases chains.len() - i,
        {
            let c = chains[i];
            let rows = self.get_tokens(c);
            let offered = self.list_offered(c);
            let ghost before = digests@;
            digests.insert(c, chain_digest(&rows, &offered));
            proof {
                let now = chains@.take(i as int);
                let next = chains@.take(i + 1);
                assert(next =~= now.push(c));
                assert forall|x: u64| #[trigger] digests@.contains_key(x) <==> next.contains(
                    x,
                ) by {
                    if now.contains(x) {
                        assert(next[now.index_of(x)] == x);
                    }
                    if x == c {
                        assert(next[i as int] == x);
                    }
                    if next.contains(x) && x != c {
                        assert(now[next.index_of(x)] == x);
                    }
                }
            }
            i = i + 1;
        }
        assert(chains@.take(i as int) =~= chains@);
        assert(digests@ =~= self@.digests());
        digests
    }
}

} // verus!
