//! The module as callers see it: readiness, replies, errors and events.
use token_list_module::config::{source_str, ConfigSource, ListConfig, ListConfigWire};
use token_list_module::events::{EventLog, ModuleEvent};
use token_list_module::json::read_strings;
use token_list_module::module::{ModuleError, TokenListModule, TokenListModuleImpl};
use token_list_module::offered::OfferedError;
use token_list_module::store::StoreDir;
use token_list_module::token::{RawToken, Token, TokenError, TokenListDoc, TokenSource};

fn token(chain_id: u64, symbol: &str) -> Token {
    Token {
        chain_id,
        address: format!("0x{symbol}"),
        name: format!("The {symbol}"),
        symbol: symbol.to_string(),
        decimals: 18,
        logo_uri: None,
    }
}

fn document(symbols: &[(u64, &str)]) -> Result<TokenListDoc, String> {
    let mut tokens = Vec::new();
    for (chain_id, symbol) in symbols {
        tokens.push(RawToken {
            chain_id: *chain_id,
            address: format!("0x{symbol}"),
            name: format!("The {symbol}"),
            symbol: symbol.to_string(),
            decimals: 18,
            logo_uri: None,
        });
    }
    Ok(TokenListDoc { name: "Doc".to_string(), tokens })
}

fn module() -> TokenListModuleImpl {
    let mut m = TokenListModuleImpl::new();
    m.on_context_ready(StoreDir::empty(), vec![token(1, "Aa"), token(1, "Bb"), token(10, "Cc")]);
    m
}

#[test]
fn nothing_is_answered_before_the_context_is_ready() {
    let mut m = TokenListModuleImpl::new();
    let mut events = EventLog::new();
    assert!(m.config_status().is_none());
    assert!(m.init_defaults(&mut events).is_none());
    assert!(!m.configure(Some(ListConfigWire::default()), &mut events));
    assert!(!m.add_custom_token(Some(token(1, "Dd")), &mut events));
    assert!(!m.remove_custom_token(1, "0xDd".to_string(), &mut events));
    assert!(m.take_writes().is_empty());
    let e = m.get_tokens(1).unwrap_err();
    assert!(matches!(e, ModuleError::NotReady));
    assert_eq!(e.message(), "token_list not initialized (context not ready)");
    assert_eq!(e.code(), None);
    assert!(matches!(m.get_all_tokens(), Err(ModuleError::NotReady)));
    assert!(matches!(m.get_custom_tokens(), Err(ModuleError::NotReady)));
    assert!(matches!(m.get_list_sources(), Err(ModuleError::NotReady)));
    assert!(matches!(m.get_enabled_tokens(1), Err(ModuleError::NotReady)));
    assert!(matches!(m.list_offered(1), Err(ModuleError::NotReady)));
    assert!(matches!(m.list_available(1, "", 0, 0), Err(ModuleError::NotReady)));
    assert!(matches!(m.get_tokens_by_address(1, "[]"), Err(ModuleError::NotReady)));
    assert!(matches!(m.import_custom_tokens(document(&[]), true, &mut events), Err(ModuleError::NotReady)));
    assert!(matches!(m.set_token_enabled(1, "0xAa".to_string(), true, &mut events), Err(ModuleError::NotReady)));
    assert!(events.events.is_empty());
}

#[test]
fn a_negative_chain_is_refused() {
    let mut m = module();
    let e = m.get_tokens(-1).unwrap_err();
    assert!(matches!(e, ModuleError::BadChain));
    assert_eq!(e.message(), "chainId must be non-negative");
    assert_eq!(e.code(), Some("bad_chain".to_string()));
    // the chain is looked at before the addresses are
    assert!(matches!(m.get_tokens_by_address(-1, "not json"), Err(ModuleError::BadChain)));
    assert!(matches!(m.get_enabled_tokens(-1), Err(ModuleError::BadChain)));
    assert!(matches!(m.list_offered(-1), Err(ModuleError::BadChain)));
    let mut events = EventLog::new();
    let r = m.set_token_enabled(-1, "0xAa".to_string(), true, &mut events);
    assert!(matches!(r, Err(ModuleError::BadChain)));
    assert!(events.events.is_empty());
}

#[test]
fn a_removal_takes_a_chain_id_as_it_comes() {
    let mut m = module();
    let mut events = EventLog::new();
    assert!(m.add_custom_token(Some(token(u64::MAX, "Dd")), &mut events));
    assert_eq!(events.events, vec![ModuleEvent::TokensUpdated(-1)]);
    assert!(m.remove_custom_token(-1, "0xDD".to_string(), &mut events));
    assert_eq!(events.events.len(), 2);
    assert!(!m.remove_custom_token(-1, "0xDD".to_string(), &mut events));
    assert_eq!(events.events.len(), 2);
}

#[test]
fn addresses_come_as_a_json_array() {
    let m = module();
    let rows = m.get_tokens_by_address(1, r#"[" 0xaa ", "0xCC"]"#).unwrap();
    assert_eq!(rows.len(), 1);
    assert_eq!(rows[0].token.symbol, "Aa");
    assert_eq!(rows[0].source, TokenSource::Embedded);
    assert!(m.get_tokens_by_address(1, "[]").unwrap().is_empty());
}

#[test]
fn addresses_that_are_no_json_array_are_refused() {
    let m = module();
    for text in ["", "{}", "[1]", "[\"0xAa\"", "[\"0xAa\"] more"] {
        let e = m.get_tokens_by_address(1, text).unwrap_err();
        let words = serde_json::from_str::<Vec<String>>(text).unwrap_err().to_string();
        assert!(matches!(e, ModuleError::BadAddresses(_)));
        assert_eq!(e.message(), words);
        assert_eq!(e.code(), None);
    }
    // even where the module is not ready, the addresses are looked at first
    let unready = TokenListModuleImpl::new();
    assert!(matches!(unready.get_tokens_by_address(1, "x"), Err(ModuleError::BadAddresses(_))));
}

#[test]
fn strings_are_read_from_json() {
    assert_eq!(read_strings(r#"["a", "\u0062\n"]"#), Ok(vec!["a".to_string(), "b\n".to_string()]));
    assert_eq!(read_strings("[]"), Ok(Vec::new()));
    assert_eq!(read_strings("[1"), Err("invalid type: integer `1`, expected a string at line 1 column 2".to_string()));
}

#[test]
fn the_status_tells_whether_anything_was_set() {
    let mut m = module();
    let status = m.config_status().unwrap();
    assert_eq!(status.state(), "unconfigured");
    assert_eq!(status.source, ConfigSource::Unset);
    assert!(status.config.is_none());
    assert_eq!((status.counts.embedded, status.counts.downloaded, status.counts.custom), (3, 0, 0));
    let wire = ListConfigWire { timeout_secs: Some(9), ..ListConfigWire::default() };
    assert!(m.configure(Some(wire), &mut EventLog::new()));
    let status = m.config_status().unwrap();
    assert_eq!(status.state(), "configured");
    assert_eq!(status.source, ConfigSource::External);
    assert_eq!(status.config, Some(ListConfig { timeout_secs: 9, ..ListConfig::default() }));
}

#[test]
fn defaults_are_applied_once_and_announced_as_configuration_only() {
    let mut m = module();
    let mut events = EventLog::new();
    let reply = m.init_defaults(&mut events).unwrap();
    assert!(reply.applied);
    assert_eq!(reply.reason, None);
    assert_eq!(reply.status.source, ConfigSource::Default);
    assert_eq!(reply.status.config, Some(ListConfig::default()));
    assert_eq!(events.events, vec![ModuleEvent::ConfigChanged("default".to_string())]);
    let again = m.init_defaults(&mut events).unwrap();
    assert!(!again.applied);
    assert_eq!(again.reason, Some("already configured".to_string()));
    assert_eq!(again.status.state(), "configured");
    assert_eq!(events.events.len(), 1);
}

#[test]
fn a_configuration_that_is_held_already_is_taken_in_silence() {
    let mut m = module();
    let mut events = EventLog::new();
    let wire = ListConfigWire { refresh_secs: Some(900), ..ListConfigWire::default() };
    assert!(m.configure(Some(wire.clone()), &mut events));
    assert_eq!(events.events, vec![ModuleEvent::ConfigChanged("external".to_string())]);
    assert!(m.configure(Some(wire), &mut events));
    assert!(m.configure(Some(ListConfigWire::default()), &mut events));
    assert!(!m.configure(None, &mut events)); // a text that is no edit
    assert_eq!(events.events.len(), 1);
}

#[test]
fn a_token_is_added_replaced_and_removed() {
    let mut m = module();
    let mut events = EventLog::new();
    assert!(m.add_custom_token(Some(token(10, "Dd")), &mut events));
    // true means stored, which a token that was there is too
    assert!(m.add_custom_token(Some(token(10, "Dd")), &mut events));
    assert!(!m.add_custom_token(None, &mut events)); // a text that is no token
    assert_eq!(events.events, vec![ModuleEvent::TokensUpdated(10)]);
    assert_eq!(m.get_custom_tokens().unwrap(), vec![token(10, "Dd")]);
    assert_eq!(m.take_writes().len(), 1);
    assert!(m.remove_custom_token(10, " 0xDD ".to_string(), &mut events));
    assert_eq!(events.events.len(), 2);
    assert!(m.get_custom_tokens().unwrap().is_empty());
}

#[test]
fn an_import_answers_with_the_new_length() {
    let mut m = module();
    let mut events = EventLog::new();
    assert_eq!(m.import_custom_tokens(document(&[(1, "Dd"), (7, "Ee")]), false, &mut events).unwrap(), 2);
    assert_eq!(events.events, vec![ModuleEvent::TokensUpdated(1), ModuleEvent::TokensUpdated(7)]);
    assert_eq!(m.import_custom_tokens(document(&[(1, "Dd"), (7, "Ee")]), false, &mut events).unwrap(), 2);
    assert_eq!(events.events.len(), 2);
    let e = m.import_custom_tokens(Err("expected value".to_string()), true, &mut events).unwrap_err();
    assert_eq!(e.message(), "parse: expected value");
    assert_eq!(m.get_custom_tokens().unwrap().len(), 2);
    assert_eq!(events.events.len(), 2);
}

#[test]
fn all_tokens_of_all_chains_are_served() {
    let m = module();
    let all: Vec<String> = m.get_all_tokens().unwrap().into_iter().map(|r| r.token.symbol).collect();
    assert_eq!(all, ["Aa", "Bb", "Cc"]);
}

#[test]
fn errors_are_told_by_words_and_codes() {
    assert_eq!(ModuleError::Busy.message(), "a refresh is already running");
    assert_eq!(ModuleError::Busy.code(), None);
    let offered = ModuleError::Offered(OfferedError::Pinned);
    assert_eq!(offered.code(), Some("pinned".to_string()));
    assert_eq!(offered.message(), "a pinned token cannot be disabled");
    assert_eq!(ModuleError::Token(TokenError::Io("full".to_string())).message(), "io: full");
}

#[test]
fn sources_have_words() {
    assert_eq!(source_str(ConfigSource::default()), "none");
    assert_eq!(source_str(ConfigSource::Default), "default");
    assert_eq!(source_str(ConfigSource::External), "external");
}

#[test]
fn a_session_from_configuration_to_a_refused_fetch() {
    let url = "http://127.0.0.1:8601/list.json";
    let usdc = token(1, "USDC");
    let usdt = token(1, "USDT");
    let op = token(10, "OP");
    let mut m = TokenListModuleImpl::new();
    let mut events = EventLog::new();
    m.on_context_ready(StoreDir::empty(), Vec::new());

    let wire = ListConfigWire {
        list_urls: Some(vec![url.to_string()]),
        proxy_required: Some(false),
        ..ListConfigWire::default()
    };
    assert!(m.configure(Some(wire), &mut events));
    let plan = m.begin_refresh(false).unwrap();
    let fetched = Ok(vec![Ok(("Test List".to_string(), vec![usdc, usdt, op]))]);
    assert_eq!(m.refresh_now(plan, fetched, &mut events).unwrap(), 3);
    let rows: Vec<String> = m.get_tokens(1).unwrap().into_iter().map(|r| r.token.symbol).collect();
    assert_eq!(rows, ["USDC", "USDT"]);

    assert!(m.add_custom_token(Some(token(1, "MINE")), &mut events));
    let rows: Vec<String> = m.get_tokens(1).unwrap().into_iter().map(|r| r.token.symbol).collect();
    assert_eq!(rows, ["MINE", "USDC", "USDT"]);
    let sources = m.get_list_sources().unwrap();
    assert_eq!(sources.len(), 1);
    assert_eq!((sources[0].url.as_str(), sources[0].token_count, sources[0].ok), (url, 3, true));

    let closed = ListConfigWire { proxy_required: Some(true), ..ListConfigWire::default() };
    assert!(m.configure(Some(closed), &mut events));
    let plan = m.begin_refresh(false).unwrap();
    let fetched = plan.proxy.route().map(|_| Vec::new()).map_err(|e| e.message());
    assert!(matches!(m.refresh_now(plan, fetched, &mut events), Err(ModuleError::Token(TokenError::Proxy(_)))));
    assert_eq!(m.get_tokens(1).unwrap().len(), 3); // what there was is still served
    assert_eq!(
        events.events,
        vec![
            ModuleEvent::ConfigChanged("external".to_string()),
            ModuleEvent::TokensUpdated(1),
            ModuleEvent::TokensUpdated(10),
            ModuleEvent::TokensUpdated(1),
            ModuleEvent::ConfigChanged("external".to_string()),
        ]
    );
}
