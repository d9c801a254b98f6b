//! A refresh plans, fetches with the list released, and applies what was fetched.
use token_list_module::config::{ListConfig, ListConfigWire};
use token_list_module::events::{EventLog, ModuleEvent};
use token_list_module::module::{ModuleError, TokenListModule, TokenListModuleImpl};
use token_list_module::proxy::{ProxyConfig, Route};
use token_list_module::store::StoreDir;
use token_list_module::token::{Token, TokenError};
use token_list_module::tokens::TokenList;

fn token(chain_id: u64, symbol: &str) -> Token {
    Token {
        chain_id,
        address: format!("0x{symbol}"),
        name: symbol.to_string(),
        symbol: symbol.to_string(),
        decimals: 18,
        logo_uri: None,
    }
}

fn module(wire: ListConfigWire) -> TokenListModuleImpl {
    let mut m = TokenListModuleImpl::new();
    m.on_context_ready(StoreDir::empty(), vec![token(1, "A")]);
    assert!(m.configure(Some(wire), &mut EventLog::new()));
    m
}

fn urls(urls: &[&str]) -> ListConfigWire {
    ListConfigWire {
        list_urls: Some(urls.iter().map(|u| u.to_string()).collect()),
        timeout_secs: Some(5),
        ..ListConfigWire::default()
    }
}

#[test]
fn a_refresh_fetches_with_the_store_released() {
    let mut m = module(urls(&["http://x/a.json", "http://x/b.json"]));
    // the plan holds what a fetch needs and borrows nothing of the module
    let plan = m.begin_refresh(false).unwrap();
    assert_eq!(plan.list_urls, vec!["http://x/a.json".to_string(), "http://x/b.json".to_string()]);
    assert_eq!((plan.proxy.proxy.clone(), plan.proxy.required, plan.proxy.timeout_secs), (None, false, 5));
    // so the module answers and changes while the fetch goes on
    assert_eq!(m.get_tokens(1).unwrap().len(), 1);
    assert!(m.add_custom_token(Some(token(1, "B")), &mut EventLog::new()));
    let fetched = vec![
        Ok(("First".to_string(), vec![token(1, "C"), token(5, "D")])),
        Err(TokenError::Http("no route".to_string())),
    ];
    let mut events = EventLog::new();
    assert_eq!(m.refresh_now(plan, Ok(fetched), &mut events).unwrap(), 2);
    assert_eq!(m.get_tokens(1).unwrap().len(), 3);
    assert_eq!(events.events, vec![ModuleEvent::TokensUpdated(1), ModuleEvent::TokensUpdated(5)]);
    let sources = m.get_list_sources().unwrap();
    assert_eq!((sources[0].name.as_str(), sources[0].token_count, sources[0].ok), ("First", 2, true));
    assert_eq!(sources[0].error, None);
    assert_eq!((sources[1].url.as_str(), sources[1].token_count, sources[1].ok), ("http://x/b.json", 0, false));
    assert_eq!(sources[1].error, Some("http: no route".to_string()));
}

#[test]
fn chain_events_are_announced_once_the_lock_is_released() {
    let mut m = module(urls(&["http://x/a.json"]));
    let plan = m.begin_refresh(false).unwrap();
    let mut events = EventLog::new();
    m.refresh_now(plan, Ok(vec![Ok(("L".to_string(), vec![token(7, "C")]))]), &mut events).unwrap();
    // the events outlive the call, to be passed on when nobody holds the module any more
    drop(m);
    assert_eq!(events.events, vec![ModuleEvent::TokensUpdated(7)]);
}

#[test]
fn one_refresh_at_a_time() {
    let m = module(urls(&[]));
    assert!(matches!(m.begin_refresh(true), Err(ModuleError::Busy)));
    let unready = TokenListModuleImpl::new();
    assert!(matches!(unready.begin_refresh(true), Err(ModuleError::Busy)));
    assert!(matches!(unready.begin_refresh(false), Err(ModuleError::NotReady)));
}

#[test]
fn a_refresh_goes_by_the_plan_it_was_begun_with() {
    let mut m = module(urls(&["http://x/a.json"]));
    let plan = m.begin_refresh(false).unwrap();
    assert!(m.configure(Some(urls(&[])), &mut EventLog::new()));
    let fetched = Ok(vec![Ok(("L".to_string(), vec![token(1, "C")]))]);
    assert_eq!(m.refresh_now(plan, fetched, &mut EventLog::new()).unwrap(), 1);
    assert_eq!(m.get_list_sources().unwrap()[0].url, "http://x/a.json");
}

#[test]
fn a_refresh_fails_closed() {
    let wire = ListConfigWire { proxy_required: Some(true), ..urls(&["http://x/a.json"]) };
    let mut m = module(wire);
    let plan = m.begin_refresh(false).unwrap();
    assert!(matches!(plan.proxy.route(), Err(TokenError::Proxy(_))));
    let mut events = EventLog::new();
    // even what is said to have been fetched is not taken
    let fetched = Ok(vec![Ok(("L".to_string(), vec![token(1, "C")]))]);
    let e = m.refresh_now(plan, fetched, &mut events).unwrap_err();
    assert!(matches!(e, ModuleError::Token(TokenError::Proxy(_))));
    assert_eq!(e.message(), "proxy: a proxy is required and none is configured");
    assert!(events.events.is_empty());
    assert!(m.get_list_sources().unwrap().is_empty());
}

#[test]
fn a_fetch_goes_through_the_proxy_where_there_is_one() {
    let through = ProxyConfig::new(Some("socks5h://127.0.0.1:9050".to_string()), true, 5);
    assert!(matches!(through.route(), Ok(Route::Through(p)) if p == "socks5h://127.0.0.1:9050"));
    let optional = ProxyConfig::new(Some("http://p".to_string()), false, 5);
    assert!(matches!(optional.route(), Ok(Route::Through(p)) if p == "http://p"));
    assert!(matches!(ProxyConfig::new(None, false, 5).route(), Ok(Route::Clear)));
    assert!(matches!(ProxyConfig::new(None, true, 5).route(), Err(TokenError::Proxy(_))));
}

#[test]
fn the_same_lists_again_write_nothing() {
    let mut tl = TokenList::with_dir(StoreDir::empty(), Vec::new());
    tl.configure(ListConfig { list_urls: vec!["http://x/a.json".to_string()], ..ListConfig::default() });
    tl.take_writes();
    let fetched = || Ok(vec![Ok(("L".to_string(), vec![token(1, "C")]))]);
    assert_eq!(tl.refresh_now(fetched()).unwrap(), 1);
    assert_eq!(tl.take_writes().len(), 1);
    assert_eq!(tl.refresh_now(fetched()).unwrap(), 1);
    assert!(tl.take_writes().is_empty());
    assert_eq!(tl.refresh_secs(), 0);
}
