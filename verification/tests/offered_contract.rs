//! Enabling and disabling tokens, what is offered, and what is announced of it.
use token_list_module::config::{ConfigSource, ListConfig, ListConfigWire};
use token_list_module::events::{EventLog, ModuleEvent};
use token_list_module::module::{ModuleError, TokenListModule, TokenListModuleImpl};
use token_list_module::offered::{chains, is_pinned, pinned, OfferedError, WETH_MAINNET};
use token_list_module::store::{StoreDir, StoreWrite};
use token_list_module::token::{Token, TokenSource};
use token_list_module::tokens::TokenList;

const USDC: &str = "0xA0b86991c6218b36c1d19D4a2e9Eb0cE3606eB48";
const OP: &str = "0x4200000000000000000000000000000000000042";

fn token(chain_id: u64, address: &str, name: &str, symbol: &str) -> Token {
    Token {
        chain_id,
        address: address.to_string(),
        name: name.to_string(),
        symbol: symbol.to_string(),
        decimals: 6,
        logo_uri: None,
    }
}

fn shipped() -> Vec<Token> {
    vec![
        token(1, USDC, "USD Coin", "USDC"),
        token(1, "0xdAC17F958D2ee523a2206206994597C13D831ec7", "Tether", "USDT"),
        token(10, OP, "Optimism", "OP"),
    ]
}

fn opened() -> TokenList {
    TokenList::with_dir(StoreDir::empty(), shipped())
}

fn module() -> TokenListModuleImpl {
    let mut m = TokenListModuleImpl::new();
    m.on_context_ready(StoreDir::empty(), shipped());
    m
}

fn symbols(tokens: &[Token]) -> Vec<&str> {
    tokens.iter().map(|t| t.symbol.as_str()).collect()
}

#[test]
fn enabling_reads_the_catalogue_before_it_writes_the_snapshot() {
    let mut tl = opened();
    let row = tl.get_tokens(1)[0].token.clone();
    assert_eq!(tl.set_token_enabled(1, &USDC.to_lowercase(), true), Ok(true));
    // what is written is the row of the catalogue, to the letter
    let writes = tl.take_writes();
    assert_eq!(writes.len(), 1);
    assert!(matches!(&writes[0], StoreWrite::EnabledTokens(t) if *t == vec![row]));
    // and what the catalogue does not describe is never written
    let unknown = "0xDEADbeef00000000000000000000000000000000";
    assert_eq!(tl.set_token_enabled(1, unknown, true), Err(OfferedError::NotListed));
    assert!(tl.take_writes().is_empty());
}

#[test]
fn enabled_rows_have_one_persisted_writer() {
    let mut tl = opened();
    tl.set_token_enabled(1, USDC, true).unwrap();
    let on = tl.take_writes();
    assert_eq!(on.len(), 1);
    assert_eq!(on[0].file_name(), "enabled_tokens.json");
    tl.set_token_enabled(1, USDC, false).unwrap();
    let off = tl.take_writes();
    assert_eq!(off.len(), 1);
    assert_eq!(off[0].file_name(), "enabled_tokens.json");
    assert!(matches!(&off[0], StoreWrite::EnabledTokens(t) if t.is_empty()));
    // nothing else writes that file
    tl.add_custom_token(token(1, "0x11", "Mine", "MINE"));
    tl.init_defaults();
    tl.refresh_now(Ok(Vec::new())).unwrap();
    assert!(tl.take_writes().iter().all(|w| w.file_name() != "enabled_tokens.json"));
}

#[test]
fn offered_readers_are_silent() {
    let m = module();
    // a reader borrows the module only, and is handed nothing to announce with
    assert_eq!(m.get_enabled_tokens(1).unwrap().len(), 0);
    assert_eq!(symbols(&m.list_offered(1).unwrap()), ["WETH"]);
    assert_eq!(m.list_available(1, "", 0, 0).unwrap().total, 3);
    let mut m = m;
    assert!(m.take_writes().is_empty());
}

#[test]
fn the_enabled_mutator_uses_the_shared_chain_event_diff() {
    let mut m = module();
    let mut events = EventLog::new();
    let reply = m.set_token_enabled(10, OP.to_string(), true, &mut events).unwrap();
    assert_eq!((reply.chain_id, reply.address.as_str(), reply.enabled, reply.changed), (10, OP, true, true));
    assert_eq!(events.events, vec![ModuleEvent::TokensUpdated(10)]);
    // doing it again moves nothing and announces nothing
    let again = m.set_token_enabled(10, OP.to_string(), true, &mut events).unwrap();
    assert!(!again.changed);
    assert_eq!(events.events.len(), 1);
}

#[test]
fn chain_digests_cover_both_catalogue_and_offered_rows() {
    let mut tl = opened();
    let before = tl.chain_digests();
    // no row of the catalogue moves, but what is offered does
    let rows = tl.get_tokens(10);
    tl.set_token_enabled(10, OP, true).unwrap();
    assert_eq!(tl.get_tokens(10), rows);
    let after = tl.chain_digests();
    assert_ne!(before.get(&10), after.get(&10));
    assert_eq!(before.get(&1), after.get(&1));
    // and a row of the catalogue moves it too
    tl.add_custom_token(token(10, OP, "Mine", "OP"));
    assert_ne!(after.get(&10), tl.chain_digests().get(&10));
}

#[test]
fn persisted_enabled_sets_use_write_then_rename() {
    let mut tl = opened();
    tl.set_token_enabled(1, USDC, true).unwrap();
    assert!(tl.take_writes().iter().all(|w| w.is_atomic()));
    tl.add_custom_token(token(1, "0x11", "Mine", "MINE"));
    tl.init_defaults();
    let writes = tl.take_writes();
    assert_eq!(writes.len(), 2);
    assert!(writes.iter().all(|w| !w.is_atomic()));
}

#[test]
fn every_declared_event_is_emitted() {
    let mut m = module();
    let mut events = EventLog::new();
    let off = ListConfigWire { use_embedded_list: Some(false), ..ListConfigWire::default() };
    assert!(m.configure(Some(off), &mut events));
    assert_eq!(
        events.events,
        vec![
            ModuleEvent::TokensUpdated(1),
            ModuleEvent::TokensUpdated(10),
            ModuleEvent::ConfigChanged("external".to_string()),
        ]
    );
}

#[test]
fn only_mainnet_has_a_pinned_token() {
    assert_eq!(chains(), &[1]);
    let weth = pinned(1);
    assert_eq!(weth.len(), 1);
    assert_eq!(weth[0].address, WETH_MAINNET);
    assert_eq!((weth[0].name.as_str(), weth[0].symbol.as_str(), weth[0].decimals), ("Wrapped Ether", "WETH", 18));
    assert!(pinned(11155111).is_empty()); // Sepolia
    assert!(pinned(560048).is_empty()); // Hoodi
}

#[test]
fn a_pinned_address_is_known_whatever_its_case_and_the_space_around_it() {
    assert!(is_pinned(1, WETH_MAINNET));
    assert!(is_pinned(1, &WETH_MAINNET.to_lowercase()));
    assert!(is_pinned(1, &WETH_MAINNET.to_uppercase()));
    assert!(is_pinned(1, &format!(" \t{WETH_MAINNET}\n")));
    assert!(!is_pinned(10, WETH_MAINNET));
    assert!(!is_pinned(1, USDC));
}

#[test]
fn a_pinned_token_is_always_offered_and_cannot_be_disabled() {
    let mut tl = opened();
    assert_eq!(tl.set_token_enabled(1, WETH_MAINNET, true), Ok(false));
    assert_eq!(tl.set_token_enabled(1, WETH_MAINNET, false), Err(OfferedError::Pinned));
    assert_eq!(symbols(&tl.list_offered(1)), ["WETH"]);
    assert!(tl.take_writes().is_empty());
    // on another chain the same address is like any other
    assert_eq!(tl.set_token_enabled(10, WETH_MAINNET, true), Err(OfferedError::NotListed));
}

#[test]
fn offered_errors_have_codes() {
    assert_eq!(OfferedError::NotListed.code(), "not_listed");
    assert_eq!(OfferedError::NotListed.message(), "no token list describes this address");
    assert_eq!(OfferedError::Pinned.code(), "pinned");
    assert_eq!(OfferedError::Pinned.message(), "a pinned token cannot be disabled");
}

#[test]
fn a_snapshot_outlives_the_list_it_was_taken_from() {
    let mut tl = opened();
    tl.set_token_enabled(1, USDC, true).unwrap();
    let rows = tl.get_enabled_tokens(1);
    assert_eq!(rows.len(), 1);
    assert!(rows[0].resolved);
    tl.configure(ListConfig { use_embedded_list: false, ..ListConfig::default() });
    let rows = tl.get_enabled_tokens(1);
    assert_eq!(rows[0].token.symbol, "USDC");
    assert!(!rows[0].resolved);
    assert_eq!(symbols(&tl.list_offered(1)), ["WETH", "USDC"]);
    assert!(tl.get_enabled_tokens(10).is_empty());
}

#[test]
fn enabling_again_takes_a_new_snapshot_where_the_row_changed() {
    let mut tl = opened();
    tl.set_token_enabled(1, USDC, true).unwrap();
    tl.add_custom_token(token(1, &USDC.to_lowercase(), "My USDC", "USDC"));
    assert_eq!(tl.get_tokens(1)[0].source, TokenSource::Custom);
    assert_eq!(tl.get_enabled_tokens(1)[0].token.name, "USD Coin");
    assert_eq!(tl.set_token_enabled(1, USDC, true), Ok(true));
    let rows = tl.get_enabled_tokens(1);
    assert_eq!(rows.len(), 1);
    assert_eq!(rows[0].token.name, "My USDC");
}

#[test]
fn disabling_undoes_enabling() {
    let mut tl = opened();
    assert_eq!(tl.set_token_enabled(1, USDC, false), Ok(false));
    tl.set_token_enabled(1, USDC, true).unwrap();
    assert_eq!(tl.set_token_enabled(1, &format!(" {} ", USDC.to_uppercase().replace("0X", "0x")), false), Ok(true));
    assert!(tl.get_enabled_tokens(1).is_empty());
    assert_eq!(symbols(&tl.list_offered(1)), ["WETH"]);
}

#[test]
fn enabled_tokens_are_read_back() {
    let mut tl = opened();
    tl.set_token_enabled(1, USDC, true).unwrap();
    let mut dir = StoreDir::empty();
    for w in tl.take_writes() {
        if let StoreWrite::EnabledTokens(t) = w {
            dir.enabled_tokens = Some(t);
        }
    }
    let again = TokenList::with_dir(dir, Vec::new());
    assert_eq!(symbols(&again.list_offered(1)), ["WETH", "USDC"]);
    assert_eq!(again.config_source(), ConfigSource::Unset);
}

#[test]
fn the_available_tokens_begin_with_the_offered_ones() {
    let mut tl = opened();
    tl.set_token_enabled(1, "0xdAC17F958D2ee523a2206206994597C13D831ec7", true).unwrap();
    let (total, listed, tokens) = tl.list_available(1, "", 0, None);
    assert_eq!((total, listed), (3, 3));
    assert_eq!(symbols(&tokens), ["WETH", "USDT", "USDC"]);
}

#[test]
fn a_query_looks_in_symbol_name_and_address() {
    let tl = opened();
    assert_eq!(symbols(&tl.list_available(1, " usd ", 0, None).2), ["USDC", "USDT"]);
    assert_eq!(symbols(&tl.list_available(1, "TETHER", 0, None).2), ["USDT"]);
    assert_eq!(symbols(&tl.list_available(1, "0xA0B8", 0, None).2), ["USDC"]);
    let (total, listed, tokens) = tl.list_available(1, "nothing of the kind", 0, None);
    assert_eq!((total, listed, tokens.len()), (0, 3, 0));
}

#[test]
fn pages_follow_on_from_each_other() {
    let m = module();
    let first = m.list_available(1, "", 0, 2).unwrap();
    assert_eq!(symbols(&first.tokens), ["WETH", "USDC"]);
    assert_eq!((first.total, first.offset, first.shown, first.has_more, first.listed), (3, 0, 2, true, 3));
    let second = m.list_available(1, "", 2, 2).unwrap();
    assert_eq!(symbols(&second.tokens), ["USDT"]);
    assert_eq!((second.offset, second.shown, second.has_more), (2, 1, false));
    let beyond = m.list_available(1, "", 7, 2).unwrap();
    assert_eq!((beyond.offset, beyond.shown, beyond.has_more), (7, 0, false));
    // an offset or a limit that is none is as if it had not been said
    let odd = m.list_available(1, "", -4, -1).unwrap();
    assert_eq!((odd.offset, odd.shown, odd.has_more), (0, 3, false));
    assert_eq!(m.list_available(1, "", 0, 0).unwrap().shown, 3);
    assert!(matches!(m.list_available(-1, "", 0, 0), Err(ModuleError::BadChain)));
}
