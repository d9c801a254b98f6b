//! The fail-closed gate that every fetch goes through.
use vstd::prelude::*;

use crate::token::{clone_text, opt_text, TokenError, TokenErrorView};

verus! {

/// How lists are to be fetched.
#[derive(Debug)]
pub struct ProxyConfig {
    pub proxy: Option<String>,
    pub required: bool,
    pub timeout_secs: u64,
}

/// What a [`ProxyConfig`] says.
#[verifier::ext_equal]
pub struct ProxyView {
    pub proxy: Option<Seq<char>>,
    pub required: bool,
    pub timeout_secs: u64,
}

impl View for ProxyConfig {
    type V = ProxyView;

    open spec fn view(&self) -> ProxyView {
        ProxyView {
            proxy: opt_text(self.proxy),
            required: self.required,
            timeout_secs: self.timeout_secs,
        }
    }
}

/// The way a fetch may take.
#[derive(Debug)]
pub enum Route {
    /// Straight to the server.
    Clear,
    /// Through the proxy at this address.
    Through(String),
}

/// What a [`Route`] says.
pub enum RouteView {
    Clear,
    Through(Seq<char>),
}

impl View for Route {
    type V = RouteView;

    open spec fn view(&self) -> RouteView {
        match self {
            Route::Clear => RouteView::Clear,
            Route::Through(p) => RouteView::Through(p@),
        }
    }
}

/// What asking for a route came to.
pub open spec fn route_view(r: Result<Route, TokenError>) -> Result<RouteView, TokenErrorView> {
    match r {
        Ok(r) => Ok(r@),
        Err(e) => Err(e@),
    }
}

impl ProxyView {
    /// A proxy is required and none is set: nothing may be fetched.
    pub open spec fn closed(self) -> bool {
        self.required && self.proxy is None
    }

    /// The way a fetch may take: through the proxy where one is set, in the clear where none is
    /// set and none is required, and none at all otherwise.
    pub open spec fn route(self) -> Result<RouteView, TokenErrorView> {
        match self.proxy {
            Some(p) => Ok(RouteView::Through(p)),
            None => if self.required {
                Err(TokenErrorView::Proxy("a proxy is required and none is configured"@))
            } else {
                Ok(RouteView::Clear)
            },
        }
    }
}

impl ProxyConfig {
    /// How lists are to be fetched, from the three settings that say so.
    pub fn new(proxy: Option<String>, required: bool, timeout_secs: u64) -> (r: Self)
        ensures
            r@ == (ProxyView { proxy: opt_text(proxy), required, timeout_secs }),
    {
        ProxyConfig { proxy, required, timeout_secs }
    }

    /// The way a fetch may take. It fails closed: where a proxy is required and none is set there
    /// is no way, rather than the clear one.
    pub fn route(&self) -> (r: Result<Route, TokenError>)
        ensures
            route_view(r) == self@.route(),
            r is Err <==> self@.closed(),
    {
        match clone_text(&self.proxy) {
            Some(p) => Ok(Route::Through(p)),
            None => if self.required {
                Err(TokenError::Proxy("a proxy is required and none is configured".to_string()))
            } else {
                Ok(Route::Clear)
            },
        }
    }
}

} // verus!
