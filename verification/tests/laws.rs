//! What holds of the library as a whole, on chosen values.
use std::collections::hash_map::DefaultHasher;
use std::hash::Hasher;

use token_list_module::config::{ConfigRecord, ConfigSource, ListConfig, ListConfigWire};
use token_list_module::digest::{chain_digest, changed_chains, ChainDigests};
use token_list_module::store::{StoreDir, StoreWrite, StoredConfig};
use token_list_module::text::norm;
use token_list_module::token::{ListSource, RawToken, Token, TokenError, TokenListDoc, TokenRow, TokenSource};
use token_list_module::tokens::TokenList;

fn token(chain_id: u64, address: &str, name: &str) -> Token {
    Token {
        chain_id,
        address: address.to_string(),
        name: name.to_string(),
        symbol: "SYM".to_string(),
        decimals: 18,
        logo_uri: None,
    }
}

fn document(tokens: &[Token]) -> Result<TokenListDoc, String> {
    let raw = |t: &Token| RawToken {
        chain_id: t.chain_id,
        address: t.address.clone(),
        name: t.name.clone(),
        symbol: t.symbol.clone(),
        decimals: t.decimals,
        logo_uri: t.logo_uri.clone(),
    };
    Ok(TokenListDoc { name: "Doc".to_string(), tokens: tokens.iter().map(raw).collect() })
}

fn names(rows: &[TokenRow]) -> Vec<&str> {
    rows.iter().map(|r| r.token.name.as_str()).collect()
}

fn opened(custom: Vec<Token>) -> TokenList {
    TokenList::with_dir(StoreDir { custom_tokens: Some(custom), ..StoreDir::empty() }, Vec::new())
}

#[test]
fn addresses_are_normalised() {
    assert_eq!(norm("  0xAbC\t"), "0xabc");
    assert_eq!(norm("\u{2003}0xÄ\u{a0}"), "0xä");
    assert_eq!(norm(""), "");
}

#[test]
fn the_user_wins_over_downloads_and_downloads_over_the_floor() {
    let shipped = vec![token(1, "0xa", "floor a"), token(1, "0xb", "floor b"), token(1, "0xc", "floor c")];
    let mut tl = TokenList::new(shipped);
    tl.configure(ListConfig { list_urls: vec!["u".to_string()], ..ListConfig::default() });
    let list = vec![token(1, "0xA", "list a"), token(1, "0xB", "list b")];
    tl.refresh_now(Ok(vec![Ok(("L".to_string(), list))])).unwrap();
    tl.add_custom_token(token(1, " 0xa ", "own a"));
    let rows = tl.get_tokens(1);
    assert_eq!(names(&rows), ["own a", "list b", "floor c"]);
    let sources: Vec<TokenSource> = rows.iter().map(|r| r.source).collect();
    assert_eq!(sources, [TokenSource::Custom, TokenSource::Downloaded, TokenSource::Embedded]);
    let some = tl.get_tokens_by_address(1, &["0xC".to_string(), "0xA".to_string()]);
    assert_eq!(names(&some), ["own a", "floor c"]);
}

#[test]
fn a_token_behind_another_of_its_address_stays_behind() {
    let mut tl = opened(vec![token(1, "0xa", "first"), token(1, "0xA", "second")]);
    assert!(!tl.add_custom_token(token(1, "0xA", "second")));
    assert_eq!(names(&tl.get_tokens(1)), ["first"]);
    // any other token takes the place of both
    assert!(tl.add_custom_token(token(1, "0xa", "third")));
    assert_eq!(names(&tl.get_tokens(1)), ["third"]);
    assert_eq!(tl.get_custom_tokens().len(), 1);
}

#[test]
fn an_import_goes_over_the_last_entry_of_an_address() {
    let mut tl = opened(vec![token(1, "0xa", "first"), token(1, "0xA", "second"), token(2, "0xa", "other")]);
    let doc = [token(1, "0xa", "new"), token(3, "0xa", "far"), token(1, "0xa", "newer")];
    assert_eq!(tl.import_custom_tokens(document(&doc), false).unwrap(), 4);
    let stored: Vec<&str> = tl.get_custom_tokens().iter().map(|t| t.name.as_str()).collect();
    assert_eq!(stored, ["first", "newer", "other", "far"]);
    tl.take_writes();
    assert_eq!(tl.import_custom_tokens(document(&doc), false).unwrap(), 4);
    assert!(tl.take_writes().is_empty());
    assert_eq!(tl.import_custom_tokens(document(&doc), true).unwrap(), 2);
}

#[test]
fn removing_undoes_adding() {
    let before = vec![token(1, "0xa", "a"), token(2, "0xb", "b")];
    let mut tl = opened(before.clone());
    let digests = tl.chain_digests();
    assert!(tl.add_custom_token(token(1, "0xB", "new")));
    assert_eq!(changed_chains(&digests, &tl.chain_digests()), vec![1]);
    assert!(tl.remove_custom_token(1, "0xb"));
    assert_eq!(tl.get_custom_tokens(), before.as_slice());
    assert!(changed_chains(&digests, &tl.chain_digests()).is_empty());
}

#[test]
fn an_import_moves_the_chains_of_its_document_only() {
    let mut tl = opened(vec![token(1, "0xa", "a"), token(2, "0xb", "b"), token(3, "0xc", "c")]);
    let before = tl.chain_digests();
    tl.import_custom_tokens(document(&[token(2, "0xb", "changed"), token(3, "0xc", "c")]), false).unwrap();
    assert_eq!(changed_chains(&before, &tl.chain_digests()), vec![2]);
}

#[test]
fn a_merging_import_that_changes_anything_moves_a_chain() {
    let mut tl = opened(vec![token(1, "0xa", "a"), token(2, "0xb", "b")]);
    for (doc, moved) in [
        (vec![token(2, "0xB", "b")], vec![2]), // another spelling of the address
        (vec![token(1, "0xa", "a"), token(7, "0xc", "c")], vec![7]),
        (vec![token(1, "0xa", "a")], Vec::new()), // nothing new
    ] {
        let before = tl.chain_digests();
        tl.take_writes();
        tl.import_custom_tokens(document(&doc), false).unwrap();
        assert_eq!(changed_chains(&before, &tl.chain_digests()), moved);
        assert_eq!(tl.take_writes().is_empty(), moved.is_empty());
    }
}

#[test]
fn a_refresh_leaves_everything_but_the_downloads_alone() {
    let mut tl = opened(vec![token(1, "0xa", "a")]);
    let config = ListConfig { list_urls: vec!["u".to_string()], ..ListConfig::default() };
    tl.configure(config.clone());
    tl.set_token_enabled(1, "0xa", true).unwrap();
    tl.refresh_now(Ok(vec![Ok(("L".to_string(), vec![token(1, "0xd", "d")]))])).unwrap();
    assert_eq!(tl.get_custom_tokens(), [token(1, "0xa", "a")].as_slice());
    assert_eq!(tl.get_enabled_tokens(1).len(), 1);
    assert_eq!(tl.config(), &config);
    assert_eq!(tl.config_source(), ConfigSource::External);
}

#[test]
fn each_change_is_written_once_to_its_own_file() {
    let mut tl = opened(Vec::new());
    assert!(tl.init_defaults());
    assert!(tl.add_custom_token(token(1, "0xa", "a")));
    tl.set_token_enabled(1, "0xa", true).unwrap();
    tl.configure(ListConfig { list_urls: vec!["u".to_string()], ..ListConfig::default() });
    tl.refresh_now(Ok(vec![Ok(("L".to_string(), vec![token(2, "0xb", "b")]))])).unwrap();
    let writes = tl.take_writes();
    let files: Vec<&str> = writes.iter().map(|w| w.file_name()).collect();
    assert_eq!(
        files,
        ["list_config.json", "custom_tokens.json", "enabled_tokens.json", "list_config.json", "token_cache.json"]
    );
    assert!(matches!(&writes[4], StoreWrite::TokenCache(t) if *t == vec![token(2, "0xb", "b")]));
    assert!(tl.take_writes().is_empty());
}

#[test]
fn what_was_stored_is_read_back() {
    let mut tl = opened(Vec::new());
    let config = ListConfig { proxy: Some("http://p".to_string()), refresh_secs: 60, ..ListConfig::default() };
    tl.configure(config.clone());
    tl.add_custom_token(token(1, "0xa", "a"));
    tl.set_token_enabled(1, "0xa", true).unwrap();
    let mut dir = StoreDir::empty();
    for w in tl.take_writes() {
        match w {
            StoreWrite::ListConfig(r) => {
                dir.list_config = Some(StoredConfig { record: Some(r), bare: Some(ListConfig::default()) })
            }
            StoreWrite::TokenCache(t) => dir.token_cache = Some(t),
            StoreWrite::CustomTokens(t) => dir.custom_tokens = Some(t),
            StoreWrite::EnabledTokens(t) => dir.enabled_tokens = Some(t),
        }
    }
    let mut again = TokenList::with_dir(dir, Vec::new());
    assert_eq!(again.config(), &config);
    assert_eq!(again.config_source(), ConfigSource::External);
    assert_eq!(again.get_tokens(1), tl.get_tokens(1));
    assert_eq!(again.list_offered(1), tl.list_offered(1));
    assert!(changed_chains(&tl.chain_digests(), &again.chain_digests()).is_empty());
    assert!(!again.init_defaults());
    assert!(again.take_writes().is_empty());
}

#[test]
fn the_source_never_falls() {
    let record = ConfigRecord { source: ConfigSource::Default, config: ListConfig::default() };
    let stored = StoredConfig { record: Some(record), bare: None };
    let mut tl = TokenList::with_dir(StoreDir { list_config: Some(stored), ..StoreDir::empty() }, Vec::new());
    assert_eq!(tl.config_source(), ConfigSource::Default);
    assert!(!tl.init_defaults());
    assert!(tl.configure(ListConfig::default()));
    assert_eq!(tl.config_source(), ConfigSource::External);
    assert!(!tl.init_defaults());
    assert_eq!(tl.config_source(), ConfigSource::External);
}

#[test]
fn an_edit_said_twice_is_said_once() {
    let base = ListConfig { proxy: Some("http://p".to_string()), ..ListConfig::default() };
    let wire = ListConfigWire { proxy: Some(None), timeout_secs: Some(9), ..ListConfigWire::default() };
    let once = wire.clone().resolve(Some(&base));
    assert_eq!(once, ListConfig { timeout_secs: 9, ..ListConfig::default() });
    assert_eq!(wire.resolve(Some(&once)), once);
    assert_eq!(ListConfigWire::default().resolve(Some(&base)), base);
}

#[test]
fn a_fingerprint_is_the_hash_of_what_is_written_down() {
    let mut h = DefaultHasher::new();
    h.write(&[0, 0]);
    assert_eq!(chain_digest(&Vec::new(), &Vec::new()), h.finish());

    let t = Token {
        chain_id: 0x0102,
        address: "a".to_string(),
        name: String::new(),
        symbol: "é".to_string(),
        decimals: 6,
        logo_uri: Some("u".to_string()),
    };
    let written = [
        2, 1, 0, 0, 0, 0, 0, 0, // the chain
        b'a', 0xff, 0xff, 0xc3, 0xa9, 0xff, // address, name and symbol
        6, 1, b'u', 0xff, // decimals and logo
    ];
    let mut bytes = vec![1];
    bytes.extend_from_slice(&written);
    bytes.extend_from_slice(&[1, 0, 1]); // the bucket, no more rows, one offered token
    bytes.extend_from_slice(&written);
    bytes.push(0);
    let mut h = DefaultHasher::new();
    h.write(&bytes);
    let rows = vec![TokenRow { token: t.clone(), source: TokenSource::Downloaded }];
    assert_eq!(chain_digest(&rows, &vec![t]), h.finish());
}

#[test]
fn replies_that_differ_have_different_fingerprints() {
    let row = |source| TokenRow { token: token(1, "0xa", "a"), source };
    let custom = chain_digest(&vec![row(TokenSource::Custom)], &Vec::new());
    let embedded = chain_digest(&vec![row(TokenSource::Embedded)], &Vec::new());
    let offered = chain_digest(&Vec::new(), &vec![token(1, "0xa", "a")]);
    assert_ne!(custom, embedded);
    assert_ne!(custom, offered);
    assert_ne!(embedded, offered);
}

#[test]
fn snapshots_differ_alike_from_both_sides() {
    let mut a = ChainDigests::new();
    let mut b = ChainDigests::new();
    a.insert(1, 7);
    a.insert(2, 7);
    a.insert(30, 7);
    b.insert(2, 8);
    b.insert(30, 7);
    b.insert(4, 7);
    assert_eq!(changed_chains(&a, &b), vec![1, 2, 4]);
    assert_eq!(changed_chains(&b, &a), vec![1, 2, 4]);
    assert!(changed_chains(&a, &a).is_empty());
}

#[test]
fn tokens_are_the_same_only_to_the_letter() {
    let t = token(1, "0xa", "a");
    assert_eq!(t, t.clone());
    assert_ne!(t, Token { logo_uri: Some(String::new()), ..t.clone() });
    assert_ne!(t, Token { decimals: 6, ..t.clone() });
    assert_ne!(t, token(1, "0xA", "a"));
    let row = TokenRow { token: t.clone(), source: TokenSource::Custom };
    assert_eq!(row, row.clone());
    assert_ne!(row, TokenRow { source: TokenSource::Embedded, ..row.clone() });
}

#[test]
fn a_status_row_starts_empty() {
    let s = ListSource::default();
    assert_eq!((s.url.as_str(), s.name.as_str(), s.token_count, s.ok, s.error.clone()), ("", "", 0, false, None));
    assert_eq!(TokenError::Http("x".to_string()).message(), "http: x");
}
