//! The token list: buckets, precedence, defaults, persistence and change detection.
use token_list_module::config::{ConfigRecord, ConfigSource, ListConfig, ListConfigWire};
use token_list_module::digest::changed_chains;
use token_list_module::store::{StoreDir, StoreWrite, StoredConfig};
use token_list_module::token::{
    embedded_tokens, parse_list, RawToken, Token, TokenError, TokenListDoc, TokenRow, TokenSource,
};
use token_list_module::tokens::{Counts, Fetched, TokenList};

const LIST: &str = r#"{
      "name": "Test List",
      "tokens": [
        {"chainId":1,"address":"0xA0b86991c6218b36c1d19D4a2e9Eb0cE3606eB48","name":"USD Coin","symbol":"USDC","decimals":6,"logoURI":"http://x/usdc.png"},
        {"chainId":1,"address":"0xdAC17F958D2ee523a2206206994597C13D831ec7","name":"Tether","symbol":"USDT","decimals":6},
        {"chainId":10,"address":"0x4200000000000000000000000000000000000042","name":"Optimism","symbol":"OP","decimals":18}
      ]
    }"#;

/// Mainnet USDC, present in both LIST and the shipped list.
const USDC: &str = "0xA0b86991c6218b36c1d19D4a2e9Eb0cE3606eB48";

/// Reads a document of the token-list schema.
fn doc(text: &str) -> Result<TokenListDoc, String> {
    let v: serde_json::Value = serde_json::from_str(text).map_err(|e| e.to_string())?;
    let text_of = |v: &serde_json::Value, k: &str| v.get(k).and_then(|x| x.as_str()).unwrap_or("").to_string();
    let mut tokens = Vec::new();
    for t in v.get("tokens").and_then(|t| t.as_array()).cloned().unwrap_or_default() {
        tokens.push(RawToken {
            chain_id: t.get("chainId").and_then(|c| c.as_u64()).ok_or("missing field `chainId`")?,
            address: t.get("address").and_then(|a| a.as_str()).ok_or("missing field `address`")?.to_string(),
            name: text_of(&t, "name"),
            symbol: text_of(&t, "symbol"),
            decimals: t.get("decimals").and_then(|d| d.as_u64()).unwrap_or(0) as u8,
            logo_uri: t.get("logoURI").and_then(|u| u.as_str()).map(|u| u.to_string()),
        });
    }
    Ok(TokenListDoc { name: text_of(&v, "name"), tokens })
}

fn raw(chain_id: u64, n: usize) -> RawToken {
    RawToken {
        chain_id,
        address: format!("0xF{:039x}", n),
        name: format!("Token {n}"),
        symbol: format!("T{n}"),
        decimals: 18,
        logo_uri: None,
    }
}

/// A list of the shape of the shipped one: 1709 tokens on 25 chains, 401 of them on mainnet.
fn shipped() -> Vec<Token> {
    let mut tokens = Vec::new();
    let mut usdc = raw(1, 0);
    usdc.address = USDC.to_string();
    usdc.name = "USDCoin".to_string();
    usdc.symbol = "USDC".to_string();
    usdc.decimals = 6;
    tokens.push(usdc);
    let mut op = raw(10, 0);
    op.address = "0x4200000000000000000000000000000000000042".to_string();
    op.symbol = "OP".to_string();
    tokens.push(op);
    for n in 1..401 {
        tokens.push(raw(1, n));
    }
    for n in 0..2 {
        tokens.push(raw(11155111, n));
    }
    let mut n = 0;
    while tokens.len() < 1709 {
        n += 1;
        tokens.push(raw(10 + (n % 23) as u64, n));
    }
    embedded_tokens(Ok(TokenListDoc { name: "Shipped".to_string(), tokens }))
}

fn fresh() -> TokenList {
    TokenList::new(shipped())
}

fn offline() -> ListConfig {
    ListConfig { use_embedded_list: false, ..ListConfig::default() }
}

fn find<'a>(rows: &'a [TokenRow], symbol: &str) -> &'a TokenRow {
    rows.iter().find(|r| r.token.symbol == symbol).expect("symbol present")
}

fn mine() -> Token {
    Token {
        chain_id: 1,
        address: "0x1111111111111111111111111111111111111111".into(),
        name: "Mine".into(),
        symbol: "MINE".into(),
        decimals: 18,
        logo_uri: None,
    }
}

/// What the files of a directory hold.
#[derive(Default)]
struct Disk {
    list_config: Option<(ConfigSource, ListConfig)>,
    token_cache: Option<Vec<Token>>,
    custom_tokens: Option<Vec<Token>>,
    enabled_tokens: Option<Vec<Token>>,
}

impl Disk {
    fn open(&self) -> TokenList {
        let dir = StoreDir {
            list_config: self.list_config.clone().map(|(source, config)| StoredConfig {
                record: Some(ConfigRecord { source, config }),
                bare: Some(ListConfig::default()),
            }),
            token_cache: self.token_cache.clone(),
            custom_tokens: self.custom_tokens.clone(),
            enabled_tokens: self.enabled_tokens.clone(),
        };
        TokenList::with_dir(dir, shipped())
    }

    /// Makes the writes that a list asks for and returns the names of the files written.
    fn sync(&mut self, tl: &mut TokenList) -> Vec<&'static str> {
        let mut names = Vec::new();
        for w in tl.take_writes() {
            names.push(w.file_name());
            match w {
                StoreWrite::ListConfig(r) => self.list_config = Some((r.source, r.config)),
                StoreWrite::TokenCache(t) => self.token_cache = Some(t),
                StoreWrite::CustomTokens(t) => self.custom_tokens = Some(t),
                StoreWrite::EnabledTokens(t) => self.enabled_tokens = Some(t),
            }
        }
        names
    }
}

fn fetched_list() -> Result<Vec<Fetched>, String> {
    Ok(vec![parse_list(doc(LIST))])
}

fn refused() -> Result<Vec<Fetched>, String> {
    Ok(vec![Err(TokenError::Http("connection refused".to_string()))])
}

#[test]
fn parses_uniswap_schema() {
    let (name, tokens) = parse_list(doc(LIST)).unwrap();
    assert_eq!(name, "Test List");
    assert_eq!(tokens.len(), 3);
    let usdc = &tokens[0];
    assert_eq!(usdc.symbol, "USDC");
    assert_eq!(usdc.decimals, 6);
    assert_eq!(usdc.chain_id, 1);
}

#[test]
fn custom_add_remove_persists() {
    let mut disk = Disk::default();
    {
        let mut tl = disk.open();
        tl.add_custom_token(mine());
        assert_eq!(tl.get_custom_tokens().len(), 1);
        disk.sync(&mut tl);
    }
    let mut tl2 = disk.open();
    assert_eq!(tl2.get_custom_tokens(), &[mine()]);
    assert!(tl2.remove_custom_token(1, "0x1111111111111111111111111111111111111111"));
    assert_eq!(tl2.get_custom_tokens().len(), 0);
}

#[test]
fn get_tokens_merges_and_dedups_custom_wins() {
    let mut tl = fresh();
    tl.configure(offline());
    assert_eq!(tl.refresh_now(Ok(vec![])).unwrap(), 0);
    tl.configure(ListConfig { list_urls: vec!["http://x/list.json".into()], ..offline() });
    tl.refresh_now(fetched_list()).unwrap();
    tl.add_custom_token(Token {
        chain_id: 1,
        address: "0xa0b86991c6218b36c1d19d4a2e9eb0ce3606eb48".into(),
        name: "My USDC".into(),
        symbol: "USDC".into(),
        decimals: 6,
        logo_uri: None,
    });
    let chain1 = tl.get_tokens(1);
    assert_eq!(chain1.len(), 2);
    let usdc = find(&chain1, "USDC");
    assert_eq!(usdc.token.name, "My USDC");
    assert_eq!(usdc.source, TokenSource::Custom);
    assert_eq!(tl.get_tokens(10).len(), 1);
}

#[test]
fn refresh_fetches_and_serves_tokens() {
    let mut disk = Disk::default();
    let mut tl = disk.open();
    tl.configure(ListConfig { list_urls: vec!["http://127.0.0.1/list.json".into()], timeout_secs: 5, ..offline() });
    let n = tl.refresh_now(fetched_list()).unwrap();
    assert_eq!(n, 3);
    assert_eq!(tl.get_tokens(1).len(), 2);
    assert!(tl.get_list_sources()[0].ok);
    assert_eq!(tl.get_list_sources()[0].name, "Test List");
    assert_eq!(tl.get_list_sources()[0].token_count, 3);
    assert_eq!(disk.sync(&mut tl), ["list_config.json", "token_cache.json"]);
}

#[test]
fn refresh_fail_closed_without_proxy() {
    let mut tl = fresh();
    tl.configure(ListConfig {
        list_urls: vec!["https://tokens.example/list.json".into()],
        proxy_required: true,
        timeout_secs: 5,
        ..offline()
    });
    assert!(matches!(tl.refresh_now(fetched_list()), Err(TokenError::Proxy(_))));
    assert!(tl.get_list_sources().is_empty());
    assert_eq!(tl.counts().downloaded, 0);
}

// ---- the shipped offline list ----

#[test]
fn the_shipped_list_is_the_one_we_vendored() {
    let all = shipped();
    assert_eq!(all.len(), 1709);
    let tl = fresh();
    assert_eq!(tl.get_tokens(1).len(), 401);
    assert_eq!(tl.get_tokens(11155111).len(), 2);
    assert_eq!(tl.get_tokens(560048).len(), 0);
    assert_eq!(tl.chains().len(), 25);
}

#[test]
fn the_floor_is_labelled_embedded_and_never_persisted() {
    let mut disk = Disk::default();
    let mut tl = disk.open();
    assert_eq!(find(&tl.get_tokens(1), "USDC").source, TokenSource::Embedded);
    assert!(disk.sync(&mut tl).is_empty());
    assert!(disk.token_cache.is_none());
    assert!(disk.custom_tokens.is_none());
}

#[test]
fn turning_the_floor_off_empties_the_embedded_bucket() {
    let mut tl = fresh();
    assert_eq!(tl.counts().embedded, 1709);
    tl.configure(ListConfig { use_embedded_list: false, ..ListConfig::default() });
    assert_eq!(tl.counts().embedded, 0);
    assert!(tl.get_tokens(1).is_empty());
}

#[test]
fn a_shipped_text_that_is_no_list_ships_nothing() {
    assert!(embedded_tokens(doc("not json")).is_empty());
}

// ---- default initialization ----

#[test]
fn default_init_needs_no_network() {
    let disk = Disk::default();
    let mut tl = disk.open();
    assert_eq!(tl.config_source(), ConfigSource::Unset);
    assert!(tl.init_defaults());

    assert!(tl.config().list_urls.is_empty());
    assert_eq!(tl.config().refresh_secs, 0);
    assert_eq!(tl.refresh_secs(), 0);
    assert!(tl.get_list_sources().is_empty());
    assert!(tl.config().use_embedded_list);

    assert_eq!(tl.refresh_now(Ok(vec![])).unwrap(), 0);
    assert_eq!(tl.get_tokens(1).len(), 401);
    assert!(tl.get_list_sources().is_empty());
}

#[test]
fn init_defaults_is_idempotent() {
    let mut disk = Disk::default();
    let mut tl = disk.open();
    assert!(tl.init_defaults());
    assert_eq!(disk.sync(&mut tl), ["list_config.json"]);
    let after_first = disk.list_config.clone();

    assert!(!tl.init_defaults());
    assert!(!tl.init_defaults());
    assert!(disk.sync(&mut tl).is_empty());
    assert_eq!(disk.list_config, after_first);
    assert_eq!(tl.config_source(), ConfigSource::Default);
}

#[test]
fn init_defaults_is_idempotent_across_restarts() {
    let mut disk = Disk::default();
    {
        let mut tl = disk.open();
        assert!(tl.init_defaults());
        disk.sync(&mut tl);
    }
    let mut tl2 = disk.open();
    assert_eq!(tl2.config_source(), ConfigSource::Default);
    assert!(!tl2.init_defaults());
}

#[test]
fn init_defaults_never_clobbers_an_existing_config() {
    let mut disk = Disk::default();
    let mine = ListConfig {
        list_urls: vec!["https://tokens.example/mine.json".into()],
        proxy: Some("socks5h://127.0.0.1:9050".into()),
        proxy_required: true,
        refresh_secs: 900,
        timeout_secs: 5,
        use_embedded_list: false,
    };
    {
        let mut tl = disk.open();
        tl.configure(mine.clone());
        disk.sync(&mut tl);
    }
    let mut tl2 = disk.open();
    assert_eq!(tl2.config_source(), ConfigSource::External);
    assert!(!tl2.init_defaults());
    assert_eq!(tl2.config(), &mine);
    assert_eq!(tl2.config_source(), ConfigSource::External);
}

#[test]
fn a_legacy_bare_config_file_reads_as_external() {
    let dir = StoreDir {
        list_config: Some(StoredConfig {
            record: None,
            bare: Some(ListConfig {
                list_urls: vec!["https://tokens.example/l.json".into()],
                proxy_required: true,
                timeout_secs: 7,
                ..ListConfig::default()
            }),
        }),
        ..StoreDir::empty()
    };
    let mut tl = TokenList::with_dir(dir, shipped());
    assert_eq!(tl.config_source(), ConfigSource::External);
    assert!(!tl.init_defaults());
    assert_eq!(tl.config().timeout_secs, 7);
    assert!(tl.config().proxy_required);
    assert!(tl.config().use_embedded_list);
}

#[test]
fn a_record_that_names_no_source_reads_as_external() {
    let record = ConfigRecord { source: ConfigSource::Unset, config: offline() };
    let dir = StoreDir {
        list_config: Some(StoredConfig { record: Some(record), bare: Some(ListConfig::default()) }),
        ..StoreDir::empty()
    };
    let tl = TokenList::with_dir(dir, shipped());
    assert_eq!(tl.config_source(), ConfigSource::External);
    assert!(!tl.config().use_embedded_list);
}

#[test]
fn a_config_file_that_reads_as_nothing_is_never_defaulted_over() {
    let dir = StoreDir {
        list_config: Some(StoredConfig { record: None, bare: None }),
        ..StoreDir::empty()
    };
    let mut tl = TokenList::with_dir(dir, shipped());
    assert_eq!(tl.config_source(), ConfigSource::External);
    assert_eq!(tl.config(), &ListConfig::default());
    assert!(!tl.init_defaults());
    assert!(tl.take_writes().is_empty());
    // an edit of the configuration is still taken, and mends the file
    assert!(tl.configure(offline()));
    assert_eq!(tl.take_writes().len(), 1);
}

#[test]
fn only_a_missing_config_file_leaves_a_list_unconfigured() {
    let mut tl = TokenList::with_dir(StoreDir::empty(), shipped());
    assert_eq!(tl.config_source(), ConfigSource::Unset);
    assert_eq!(tl.config(), &ListConfig::default());
    assert!(tl.init_defaults());
}

#[test]
fn serde_and_derived_defaults_agree() {
    // the edit that says nothing, as `{}` does, made where nothing is stored
    let from_silence = ListConfigWire::default().resolve(None);
    assert_eq!(from_silence, ListConfig::default());
    assert_eq!(from_silence.timeout_secs, 30);
    assert!(from_silence.use_embedded_list);
}

// ---- change detection ----

#[test]
fn init_defaults_announces_nothing_because_it_moves_nothing() {
    let mut disk = Disk::default();
    let mut tl = disk.open();
    let before = tl.chain_digests();
    assert!(tl.init_defaults());
    let after = tl.chain_digests();
    assert_eq!(after.len(), 25);
    assert!(changed_chains(&before, &after).is_empty());
    assert_eq!(disk.sync(&mut tl), ["list_config.json"]);
}

#[test]
fn a_digest_moves_only_on_the_chain_that_changed() {
    let mut tl = fresh();
    let before = tl.chain_digests();
    tl.add_custom_token(Token {
        chain_id: 10,
        address: "0x2222222222222222222222222222222222222222".into(),
        name: "Mine".into(),
        symbol: "MINE".into(),
        decimals: 18,
        logo_uri: None,
    });
    assert_eq!(changed_chains(&before, &tl.chain_digests()), vec![10]);
}

#[test]
fn a_vanished_chain_counts_as_changed() {
    let mut tl = fresh();
    let before = tl.chain_digests();
    tl.configure(ListConfig { use_embedded_list: false, ..ListConfig::default() });
    let after = tl.chain_digests();
    assert!(after.is_empty());
    assert_eq!(changed_chains(&before, &after).len(), 25);
}

#[test]
fn a_refresh_that_loses_a_list_announces_the_chains_it_emptied() {
    let mut tl = Disk::default().open();
    tl.configure(ListConfig { list_urls: vec!["http://127.0.0.1/l.json".into()], timeout_secs: 5, ..offline() });
    tl.refresh_now(fetched_list()).unwrap();
    assert_eq!(tl.chains(), vec![1, 10]);

    let before = tl.chain_digests();
    tl.configure(ListConfig { list_urls: vec!["http://127.0.0.1:1/l.json".into()], timeout_secs: 2, ..offline() });
    tl.refresh_now(refused()).unwrap();
    assert!(tl.chain_digests().is_empty());
    assert_eq!(changed_chains(&before, &tl.chain_digests()), vec![1, 10]);
}

#[test]
fn re_adding_an_identical_token_moves_nothing() {
    let mut disk = Disk::default();
    let mut tl = disk.open();
    let mine = mine();
    assert!(tl.add_custom_token(mine.clone()));
    assert_eq!(disk.sync(&mut tl), ["custom_tokens.json"]);
    let before = tl.chain_digests();
    assert!(!tl.add_custom_token(mine.clone()));
    assert!(disk.sync(&mut tl).is_empty());
    assert!(changed_chains(&before, &tl.chain_digests()).is_empty());

    assert!(tl.add_custom_token(Token { name: "Renamed".into(), ..mine }));
    assert_eq!(changed_chains(&before, &tl.chain_digests()), vec![1]);
    assert_eq!(tl.get_custom_tokens().len(), 1);
}

#[test]
fn a_reimport_of_what_is_already_stored_moves_nothing() {
    let mut tl = fresh();
    tl.import_custom_tokens(doc(LIST), true).unwrap();
    let before = tl.chain_digests();
    assert_eq!(tl.import_custom_tokens(doc(LIST), true).unwrap(), 3);
    assert!(changed_chains(&before, &tl.chain_digests()).is_empty());
}

#[test]
fn configure_declines_to_rewrite_what_it_already_holds() {
    let mut disk = Disk::default();
    let mut tl = disk.open();
    let cfg = ListConfig { timeout_secs: 9, ..ListConfig::default() };
    assert!(tl.configure(cfg.clone()));
    assert!(!tl.configure(cfg));
    assert_eq!(disk.sync(&mut tl), ["list_config.json"]);
}

#[test]
fn a_config_edit_can_move_no_token_row_at_all() {
    let mut tl = fresh();
    let before = tl.chain_digests();
    assert!(tl.configure(ListConfig { timeout_secs: 9, refresh_secs: 900, ..ListConfig::default() }));
    assert!(changed_chains(&before, &tl.chain_digests()).is_empty());
}

#[test]
fn configure_upgrades_the_source_even_when_the_config_matches() {
    let mut tl = Disk::default().open();
    assert!(tl.init_defaults());
    assert_eq!(tl.config_source(), ConfigSource::Default);
    assert!(tl.configure(ListConfig::default()));
    assert_eq!(tl.config_source(), ConfigSource::External);
    assert!(!tl.init_defaults());
}

// ---- precedence ----

#[test]
fn a_custom_token_beats_the_shipped_list() {
    let mut tl = fresh();
    tl.add_custom_token(Token {
        chain_id: 1,
        address: USDC.to_lowercase(),
        name: "My USDC".into(),
        symbol: "USDC".into(),
        decimals: 6,
        logo_uri: None,
    });
    let chain1 = tl.get_tokens(1);
    assert_eq!(chain1.len(), 401);
    let usdc = find(&chain1, "USDC");
    assert_eq!(usdc.token.name, "My USDC");
    assert_eq!(usdc.source, TokenSource::Custom);
}

#[test]
fn a_downloaded_entry_beats_the_shipped_list() {
    let mut tl = fresh();
    tl.configure(ListConfig { list_urls: vec!["http://x/l.json".into()], ..ListConfig::default() });
    tl.refresh_now(fetched_list()).unwrap();
    let chain1 = tl.get_tokens(1);
    let usdc = find(&chain1, "USDC");
    assert_eq!(usdc.token.name, "USD Coin");
    assert_eq!(usdc.source, TokenSource::Downloaded);
    assert_eq!(find(&tl.get_tokens(10), "OP").source, TokenSource::Downloaded);
}

#[test]
fn a_refresh_where_every_url_fails_still_serves_the_floor() {
    let mut tl = Disk::default().open();
    tl.configure(ListConfig {
        list_urls: vec!["http://127.0.0.1:1/l.json".into()],
        timeout_secs: 2,
        ..ListConfig::default()
    });
    assert_eq!(tl.refresh_now(refused()).unwrap(), 0);
    assert!(!tl.get_list_sources()[0].ok);
    assert_eq!(tl.get_list_sources()[0].error.as_deref(), Some("http: connection refused"));
    assert_eq!(tl.get_tokens(1).len(), 401);
}

#[test]
fn a_refresh_that_could_not_begin_changes_nothing() {
    let mut tl = fresh();
    tl.configure(ListConfig { list_urls: vec!["http://x/l.json".into()], ..ListConfig::default() });
    tl.refresh_now(fetched_list()).unwrap();
    let bad = tl.refresh_now(Err("not an address".to_string())).unwrap_err();
    assert!(matches!(&bad, TokenError::Proxy(words) if words == "not an address"));
    assert_eq!(bad.message(), "proxy: not an address");
    assert_eq!(tl.get_tokens(10)[0].source, TokenSource::Downloaded);
    assert_eq!(tl.counts().downloaded, 3);
    assert_eq!(tl.get_list_sources().len(), 1);
}

// ---- narrow query and bulk ingest ----

#[test]
fn get_tokens_by_address_narrows_the_reply() {
    let tl = fresh();
    let want = vec![USDC.to_lowercase(), "0xDEADbeef00000000000000000000000000000000".into()];
    let rows = tl.get_tokens_by_address(1, &want);
    assert_eq!(rows.len(), 1);
    assert_eq!(rows[0].token.symbol, "USDC");
    assert_eq!(rows[0].source, TokenSource::Embedded);
    assert!(tl.get_tokens_by_address(1, &[]).is_empty());
}

#[test]
fn addresses_are_matched_whatever_their_case_and_the_space_around_them() {
    let tl = fresh();
    let rows = tl.get_tokens_by_address(1, &[format!("\u{a0} {}\n", USDC.to_uppercase())]);
    assert_eq!(rows.len(), 1);
    assert_eq!(rows[0].token.address, USDC);
}

#[test]
fn import_custom_tokens_merges_then_replaces() {
    let mut disk = Disk::default();
    let mut tl = disk.open();
    tl.add_custom_token(mine());

    let before = tl.chain_digests();
    let n = tl.import_custom_tokens(doc(LIST), false).unwrap();
    assert_eq!(n, 4);
    assert_eq!(changed_chains(&before, &tl.chain_digests()), vec![1, 10]);
    assert_eq!(find(&tl.get_tokens(1), "MINE").source, TokenSource::Custom);

    let before = tl.chain_digests();
    let n = tl.import_custom_tokens(doc(LIST), true).unwrap();
    assert_eq!(n, 3);
    assert_eq!(changed_chains(&before, &tl.chain_digests()), vec![1]);
    assert!(tl.get_custom_tokens().iter().all(|t| t.symbol != "MINE"));

    disk.sync(&mut tl);
    let tl2 = disk.open();
    assert_eq!(tl2.counts(), Counts { embedded: 1709, downloaded: 0, custom: 3 });
}

#[test]
fn the_last_entry_of_an_address_wins_an_import() {
    let mut tl = fresh();
    let text = r#"{"tokens":[
        {"chainId":1,"address":"0xAA","symbol":"FIRST"},
        {"chainId":1,"address":"0xBB","symbol":"OTHER"},
        {"chainId":1,"address":" 0xaa ","symbol":"LAST"}]}"#;
    assert_eq!(tl.import_custom_tokens(doc(text), false).unwrap(), 2);
    assert_eq!(tl.get_custom_tokens()[0].symbol, "LAST");
    assert_eq!(tl.get_custom_tokens()[1].symbol, "OTHER");
    assert_eq!(tl.import_custom_tokens(doc(text), false).unwrap(), 2);
    assert_eq!(tl.get_custom_tokens()[0].symbol, "LAST");
}

#[test]
fn import_rejects_a_document_that_is_not_a_token_list() {
    let mut tl = fresh();
    assert!(matches!(tl.import_custom_tokens(doc("not json"), false), Err(TokenError::Parse(_))));
    assert!(tl.get_custom_tokens().is_empty());
}

// ---- the edit of a configuration ----

#[test]
fn wire_omission_preserves_every_untouched_field() {
    let stored = ListConfig {
        list_urls: vec!["https://a/l.json".into()],
        proxy: Some("socks5h://127.0.0.1:9050".into()),
        proxy_required: true,
        refresh_secs: 900,
        timeout_secs: 7,
        use_embedded_list: false,
    };
    let wire = ListConfigWire { list_urls: Some(vec!["https://b/l.json".into()]), ..ListConfigWire::default() };
    let out = wire.resolve(Some(&stored));
    assert_eq!(out.list_urls, vec!["https://b/l.json".to_string()]);
    assert_eq!(out, ListConfig { list_urls: out.list_urls.clone(), ..stored });
}

#[test]
fn an_explicit_null_clears_the_proxy_but_silence_keeps_it() {
    let stored = ListConfig { proxy: Some("socks5h://127.0.0.1:9050".into()), ..ListConfig::default() };
    let keep = ListConfigWire { timeout_secs: Some(9), ..ListConfigWire::default() };
    assert_eq!(keep.resolve(Some(&stored)).proxy, stored.proxy);
    let clear = ListConfigWire { proxy: Some(None), ..ListConfigWire::default() };
    assert_eq!(clear.resolve(Some(&stored)).proxy, None);
}

#[test]
fn an_edit_of_nothing_starts_from_the_defaults() {
    let out = ListConfigWire { refresh_secs: Some(60), ..ListConfigWire::default() }.resolve(None);
    assert_eq!(out, ListConfig { refresh_secs: 60, ..ListConfig::default() });
    assert_eq!(out.timeout_secs, 30);
}

// ---- everything at once ----

#[test]
fn all_tokens_are_the_rows_of_each_chain_in_turn() {
    let mut tl = fresh();
    tl.add_custom_token(mine());
    let all = tl.get_all_tokens();
    assert_eq!(all.len(), 1710);
    let by_chain: Vec<TokenRow> = tl.chains().into_iter().flat_map(|c| tl.get_tokens(c)).collect();
    assert_eq!(all, by_chain);
    assert_eq!(all[0].token, mine());
}

#[test]
fn errors_read_as_what_they_are() {
    let text = || "x".to_string();
    assert_eq!(TokenError::Proxy(text()).message(), "proxy: x");
    assert_eq!(TokenError::Http(text()).message(), "http: x");
    assert_eq!(TokenError::Parse(text()).message(), "parse: x");
    assert_eq!(TokenError::Io(text()).message(), "io: x");
}

#[test]
fn a_list_without_a_directory_writes_nothing() {
    let mut tl = fresh();
    tl.add_custom_token(mine());
    tl.init_defaults();
    assert!(tl.take_writes().is_empty());
}
