//! What the persistence directory holds, and what is to be written to it.
use vstd::prelude::*;

use crate::config::{ConfigRecord, ConfigView, ListConfig, RecordView};
use crate::token::{views, Token, TokenView};

verus! {

/// What the configuration file reads as: a record with its source, a bare configuration, both or
/// neither. A bare configuration ignores keys it does not know, so a record reads as one too.
#[derive(Debug)]
pub struct StoredConfig {
    pub record: Option<ConfigRecord>,
    pub bare: Option<ListConfig>,
}

/// What a [`StoredConfig`] says.
#[verifier::ext_equal]
pub struct StoredView {
    pub record: Option<RecordView>,
    pub bare: Option<ConfigView>,
}

impl View for StoredConfig {
    type V = StoredView;

    open spec fn view(&self) -> StoredView {
        StoredView {
            record: match self.record {
                Some(r) => Some(r@),
                None => None,
            },
            bare: match self.bare {
                Some(c) => Some(c@),
                None => None,
            },
        }
    }
}

/// What was read from the persistence directory. A file that is absent is `None`, and so is a file
/// of tokens that does not read as one. A configuration file that is there is `Some`, also where it
/// reads as neither form of a configuration.
#[derive(Debug)]
pub struct StoreDir {
    pub list_config: Option<StoredConfig>,
    pub token_cache: Option<Vec<Token>>,
    pub custom_tokens: Option<Vec<Token>>,
    pub enabled_tokens: Option<Vec<Token>>,
}

/// What a [`StoreDir`] says.
#[verifier::ext_equal]
pub struct DirView {
    pub list_config: Option<StoredView>,
    pub token_cache: Option<Seq<TokenView>>,
    pub custom_tokens: Option<Seq<TokenView>>,
    pub enabled_tokens: Option<Seq<TokenView>>,
}

/// What an optional list of tokens says.
pub open spec fn opt_views(tokens: Option<Vec<Token>>) -> Option<Seq<TokenView>> {
    match tokens {
        Some(t) => Some(views(t@)),
        None => None,
    }
}

impl View for StoreDir {
    type V = DirView;

    open spec fn view(&self) -> DirView {
        DirView {
            list_config: match self.list_config {
                Some(c) => Some(c@),
                None => None,
            },
            token_cache: opt_views(self.token_cache),
            custom_tokens: opt_views(self.custom_tokens),
            enabled_tokens: opt_views(self.enabled_tokens),
        }
    }
}

impl StoreDir {
    /// A directory with no file in it.
    pub fn empty() -> (r: StoreDir)
        ensures
            r@ == DirView::empty(),
    {
        StoreDir { list_config: None, token_cache: None, custom_tokens: None, enabled_tokens: None }
    }
}

/// One file to be written, with what it is to hold.
#[derive(Debug)]
pub enum StoreWrite {
    ListConfig(ConfigRecord),
    TokenCache(Vec<Token>),
    CustomTokens(Vec<Token>),
    EnabledTokens(Vec<Token>),
}

/// What a [`StoreWrite`] says.
pub enum WriteView {
    ListConfig(RecordView),
    TokenCache(Seq<TokenView>),
    CustomTokens(Seq<TokenView>),
    EnabledTokens(Seq<TokenView>),
}

impl View for StoreWrite {
    type V = WriteView;

    open spec fn view(&self) -> WriteView {
        match self {
            StoreWrite::ListConfig(r) => WriteView::ListConfig(r@),
            StoreWrite::TokenCache(t) => WriteView::TokenCache(views(t@)),
            StoreWrite::CustomTokens(t) => WriteView::CustomTokens(views(t@)),
            StoreWrite::EnabledTokens(t) => WriteView::EnabledTokens(views(t@)),
        }
    }
}

/// What a sequence of writes says, one by one.
pub open spec fn write_views(writes: Seq<StoreWrite>) -> Seq<WriteView> {
    writes.map_values(|w: StoreWrite| w@)
}

impl StoreWrite {
    /// The name of the file.
    pub fn file_name(&self) -> (r: &'static str)
        ensures
            r@ == match self {
                StoreWrite::ListConfig(_) => "list_config.json"@,
                StoreWrite::TokenCache(_) => "token_cache.json"@,
                StoreWrite::CustomTokens(_) => "custom_tokens.json"@,
                StoreWrite::EnabledTokens(_) => "enabled_tokens.json"@,
            },
    {
        match self {
            StoreWrite::ListConfig(_) => "list_config.json",
            StoreWrite::TokenCache(_) => "token_cache.json",
            StoreWrite::CustomTokens(_) => "custom_tokens.json",
            StoreWrite::EnabledTokens(_) => "enabled_tokens.json",
        }
    }

    /// Whether the file is to be written beside its place and then moved there, so that no reader
    /// finds half of it. The snapshots of the enabled tokens are, since no list can restore them.
    pub fn is_atomic(&self) -> (r: bool)
        ensures
            r == (self is EnabledTokens),
    {
        match self {
            StoreWrite::EnabledTokens(_) => true,
            _ => false,
        }
    }
}

impl DirView {
    /// A directory with no file in it.
    pub open spec fn empty() -> DirView {
        DirView { list_config: None, token_cache: None, custom_tokens: None, enabled_tokens: None }
    }

    /// The directory once a file has been written. A written record also reads as the bare
    /// defaults, since none of its keys is one of a bare configuration.
    pub open spec fn written(self, w: WriteView) -> DirView {
        match w {
            WriteView::ListConfig(r) => DirView {
                list_config: Some(
                    StoredView { record: Some(r), bare: Some(ConfigView::defaults()) },
                ),
                ..self
            },
            WriteView::TokenCache(t) => DirView { token_cache: Some(t), ..self },
            WriteView::CustomTokens(t) => DirView { custom_tokens: Some(t), ..self },
            WriteView::EnabledTokens(t) => DirView { enabled_tokens: Some(t), ..self },
        }
    }

    /// The directory once all of `ws` have been written, in order.
    pub open spec fn written_all(self, ws: Seq<WriteView>) -> DirView
        decreases ws.len(),
    {
        if ws.len() == 0 {
            self
        } else {
            self.written_all(ws.drop_last()).written(ws.last())
        }
    }
}

} // verus!
