//! The configuration, how an edit of it is resolved, and who wrote it.
use vstd::prelude::*;

use crate::token::{clone_text, clone_texts, opt_text, same_text, same_texts, texts};

verus! {

/// Who wrote the stored configuration. It moves one way only, from none to default to external,
/// so that a user's own settings are never defaulted again.
#[derive(Clone, Copy, Debug, PartialEq, Eq, Structural)]
pub enum ConfigSource {
    /// Nothing has been set; its word is `none`.
    Unset,
    Default,
    External,
}

impl Default for ConfigSource {
    fn default() -> (r: Self)
        ensures
            r == ConfigSource::Unset,
    {
        ConfigSource::Unset
    }
}

impl ConfigSource {
    /// How far up the one-way scale a source stands.
    pub open spec fn rank(self) -> int {
        match self {
            ConfigSource::Unset => 0,
            ConfigSource::Default => 1,
            ConfigSource::External => 2,
        }
    }

    /// The word for a source.
    pub open spec fn word(self) -> Seq<char> {
        match self {
            ConfigSource::Unset => "none"@,
            ConfigSource::Default => "default"@,
            ConfigSource::External => "external"@,
        }
    }
}

/// The source as every reply and event spells it.
pub fn source_str(s: ConfigSource) -> (r: String)
    ensures
        r@ == s.word(),
{
    match s {
        ConfigSource::Unset => "none".to_string(),
        ConfigSource::Default => "default".to_string(),
        ConfigSource::External => "external".to_string(),
    }
}

/// The configuration of a token list.
#[derive(Debug, Eq)]
pub struct ListConfig {
    pub list_urls: Vec<String>,
    pub proxy: Option<String>,
    pub proxy_required: bool,
    pub refresh_secs: u64,
    pub timeout_secs: u64,
    /// Whether the list shipped with the module is served.
    pub use_embedded_list: bool,
}

/// What a [`ListConfig`] says.
#[verifier::ext_equal]
pub struct ConfigView {
    pub list_urls: Seq<Seq<char>>,
    pub proxy: Option<Seq<char>>,
    pub proxy_required: bool,
    pub refresh_secs: u64,
    pub timeout_secs: u64,
    pub use_embedded_list: bool,
}

impl View for ListConfig {
    type V = ConfigView;

    open spec fn view(&self) -> ConfigView {
        ConfigView {
            list_urls: texts(self.list_urls@),
            proxy: opt_text(self.proxy),
            proxy_required: self.proxy_required,
            refresh_secs: self.refresh_secs,
            timeout_secs: self.timeout_secs,
            use_embedded_list: self.use_embedded_list,
        }
    }
}

impl Clone for ListConfig {
    fn clone(&self) -> (r: Self)
        ensures
            r@ == self@,
    {
        ListConfig {
            list_urls: clone_texts(&self.list_urls),
            proxy: clone_text(&self.proxy),
            proxy_required: self.proxy_required,
            refresh_secs: self.refresh_secs,
            timeout_secs: self.timeout_secs,
            use_embedded_list: self.use_embedded_list,
        }
    }
}

impl PartialEq for ListConfig {
    fn eq(&self, other: &Self) -> (r: bool) {
        same_texts(&self.list_urls, &other.list_urls) && same_text(&self.proxy, &other.proxy)
            && self.proxy_required == other.proxy_required && self.refresh_secs
            == other.refresh_secs && self.timeout_secs == other.timeout_secs
            && self.use_embedded_list == other.use_embedded_list
    }
}

impl vstd::std_specs::cmp::PartialEqSpecImpl for ListConfig {
    open spec fn obeys_eq_spec() -> bool {
        true
    }

    open spec fn eq_spec(&self, other: &Self) -> bool {
        self@ == other@
    }
}

/// The fetch timeout of a configuration that names none, in seconds.
pub const DEFAULT_TIMEOUT: u64 = 30;

/// The fetch timeout of a configuration that names none.
pub fn default_timeout() -> (r: u64)
    ensures
        r == DEFAULT_TIMEOUT,
{
    DEFAULT_TIMEOUT
}

/// Whether a configuration that does not say serves the shipped list: it does.
pub fn default_use_embedded() -> (r: bool)
    ensures
        r,
{
    true
}

impl ConfigView {
    /// The built-in configuration: nothing to fetch, nothing that schedules a fetch, and the
    /// shipped list on.
    pub open spec fn defaults() -> ConfigView {
        ConfigView {
            list_urls: Seq::empty(),
            proxy: None,
            proxy_required: false,
            refresh_secs: 0,
            timeout_secs: DEFAULT_TIMEOUT,
            use_embedded_list: true,
        }
    }
}

impl Default for ListConfig {
    fn default() -> (r: Self)
        ensures
            r@ == ConfigView::defaults(),
    {
        let r = ListConfig {
            list_urls: Vec::new(),
            proxy: None,
            proxy_required: false,
            refresh_secs: 0,
            timeout_secs: default_timeout(),
            use_embedded_list: default_use_embedded(),
        };
        assert(texts(r.list_urls@) =~= Seq::empty());
        r
    }
}

/// An edit of a [`ListConfig`]: every field may be left out, and what is left out is kept.
#[derive(Debug)]
pub struct ListConfigWire {
    pub list_urls: Option<Vec<String>>,
    /// Absent keeps the proxy; a present `None` clears it.
    pub proxy: Option<Option<String>>,
    pub proxy_required: Option<bool>,
    pub refresh_secs: Option<u64>,
    pub timeout_secs: Option<u64>,
    pub use_embedded_list: Option<bool>,
}

/// What a [`ListConfigWire`] says.
#[verifier::ext_equal]
pub struct WireView {
    pub list_urls: Option<Seq<Seq<char>>>,
    pub proxy: Option<Option<Seq<char>>>,
    pub proxy_required: Option<bool>,
    pub refresh_secs: Option<u64>,
    pub timeout_secs: Option<u64>,
    pub use_embedded_list: Option<bool>,
}

impl View for ListConfigWire {
    type V = WireView;

    open spec fn view(&self) -> WireView {
        WireView {
            list_urls: match self.list_urls {
                Some(urls) => Some(texts(urls@)),
                None => None,
            },
            proxy: match self.proxy {
                Some(p) => Some(opt_text(p)),
                None => None,
            },
            proxy_required: self.proxy_required,
            refresh_secs: self.refresh_secs,
            timeout_secs: self.timeout_secs,
            use_embedded_list: self.use_embedded_list,
        }
    }
}

impl Clone for ListConfigWire {
    fn clone(&self) -> (r: Self)
        ensures
            r@ == self@,
    {
        ListConfigWire {
            list_urls: match &self.list_urls {
                Some(urls) => Some(clone_texts(urls)),
                None => None,
            },
            proxy: match &self.proxy {
                Some(p) => Some(clone_text(p)),
                None => None,
            },
            proxy_required: self.proxy_required,
            refresh_secs: self.refresh_secs,
            timeout_secs: self.timeout_secs,
            use_embedded_list: self.use_embedded_list,
        }
    }
}

impl Default for ListConfigWire {
    fn default() -> (r: Self)
        ensures
            r@ == WireView::silent(),
    {
        ListConfigWire {
            list_urls: None,
            proxy: None,
            proxy_required: None,
            refresh_secs: None,
            timeout_secs: None,
            use_embedded_list: None,
        }
    }
}

/// What an edit says of a field, or what was there where it says nothing.
pub open spec fn said_or<T>(said: Option<T>, kept: T) -> T {
    match said {
        Some(v) => v,
        None => kept,
    }
}

impl WireView {
    /// The edit that leaves every field out.
    pub open spec fn silent() -> WireView {
        WireView {
            list_urls: None,
            proxy: None,
            proxy_required: None,
            refresh_secs: None,
            timeout_secs: None,
            use_embedded_list: None,
        }
    }

    /// The configuration `base` with this edit made to it, field by field.
    pub open spec fn over(self, base: ConfigView) -> ConfigView {
        ConfigView {
            list_urls: said_or(self.list_urls, base.list_urls),
            proxy: said_or(self.proxy, base.proxy),
            proxy_required: said_or(self.proxy_required, base.proxy_required),
            refresh_secs: said_or(self.refresh_secs, base.refresh_secs),
            timeout_secs: said_or(self.timeout_secs, base.timeout_secs),
            use_embedded_list: said_or(self.use_embedded_list, base.use_embedded_list),
        }
    }
}

impl ListConfigWire {
    /// Makes the edit to the stored configuration, or to the defaults where none is stored.
    pub fn resolve(self, existing: Option<&ListConfig>) -> (r: ListConfig)
        ensures
            r@ == self@.over(
                match existing {
                    Some(c) => c@,
                    None => ConfigView::defaults(),
                },
            ),
    {
        let base = match existing {
            Some(c) => c.clone(),
            None => ListConfig::default(),
        };
        ListConfig {
            list_urls: match self.list_urls {
                Some(urls) => urls,
                None => base.list_urls,
            },
            proxy: match self.proxy {
                Some(p) => p,
                None => base.proxy,
            },
            proxy_required: match self.proxy_required {
                Some(b) => b,
                None => base.proxy_required,
            },
            refresh_secs: match self.refresh_secs {
                Some(n) => n,
                None => base.refresh_secs,
            },
            timeout_secs: match self.timeout_secs {
                Some(n) => n,
                None => base.timeout_secs,
            },
            use_embedded_list: match self.use_embedded_list {
                Some(b) => b,
                None => base.use_embedded_list,
            },
        }
    }
}

/// The stored configuration with who wrote it.
#[derive(Debug)]
pub struct ConfigRecord {
    pub source: ConfigSource,
    pub config: ListConfig,
}

/// What a [`ConfigRecord`] says.
#[verifier::ext_equal]
pub struct RecordView {
    pub source: ConfigSource,
    pub config: ConfigView,
}

impl View for ConfigRecord {
    type V = RecordView;

    open spec fn view(&self) -> RecordView {
        RecordView { source: self.source, config: self.config@ }
    }
}

} // verus!
