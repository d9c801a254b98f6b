//! Tokens, the rows that are served of them, and the lists they come from.
use vstd::prelude::*;

verus! {

/// A normalized token entry: the form that is kept in memory and on disk.
#[derive(Debug, Eq, Hash)]
pub struct Token {
    pub chain_id: u64,
    pub address: String,
    pub name: String,
    pub symbol: String,
    pub decimals: u8,
    pub logo_uri: Option<String>,
}

/// What a [`Token`] says.
#[verifier::ext_equal]
pub struct TokenView {
    pub chain_id: u64,
    pub address: Seq<char>,
    pub name: Seq<char>,
    pub symbol: Seq<char>,
    pub decimals: u8,
    pub logo_uri: Option<Seq<char>>,
}

/// The text of an optional string.
pub open spec fn opt_text(s: Option<String>) -> Option<Seq<char>> {
    match s {
        Some(s) => Some(s@),
        None => None,
    }
}

impl View for Token {
    type V = TokenView;

    open spec fn view(&self) -> TokenView {
        TokenView {
            chain_id: self.chain_id,
            address: self.address@,
            name: self.name@,
            symbol: self.symbol@,
            decimals: self.decimals,
            logo_uri: opt_text(self.logo_uri),
        }
    }
}

impl Clone for Token {
    fn clone(&self) -> (r: Self)
        ensures
            r@ == self@,
    {
        Token {
            chain_id: self.chain_id,
            address: self.address.clone(),
            name: self.name.clone(),
            symbol: self.symbol.clone(),
            decimals: self.decimals,
            logo_uri: clone_text(&self.logo_uri),
        }
    }
}

/// A copy of an optional text.
pub(crate) fn clone_text(s: &Option<String>) -> (r: Option<String>)
    ensures
        opt_text(r) == opt_text(*s),
{
    match s {
        Some(s) => Some(s.clone()),
        None => None,
    }
}

/// Whether two optional texts are the same.
pub(crate) fn same_text(a: &Option<String>, b: &Option<String>) -> (r: bool)
    ensures
        r == (opt_text(*a) == opt_text(*b)),
{
    match (a, b) {
        (Some(a), Some(b)) => *a == *b,
        (None, None) => true,
        _ => false,
    }
}

impl PartialEq for Token {
    fn eq(&self, other: &Self) -> (r: bool) {
        self.chain_id == other.chain_id && self.address == other.address && self.name == other.name
            && self.symbol == other.symbol && self.decimals == other.decimals && same_text(
            &self.logo_uri,
            &other.logo_uri,
        )
    }
}

impl vstd::std_specs::cmp::PartialEqSpecImpl for Token {
    open spec fn obeys_eq_spec() -> bool {
        true
    }

    open spec fn eq_spec(&self, other: &Self) -> bool {
        self@ == other@
    }
}

/// What a sequence of tokens says, one by one.
pub open spec fn views(tokens: Seq<Token>) -> Seq<TokenView> {
    tokens.map_values(|t: Token| t@)
}

/// What a sequence of strings says, one by one.
pub open spec fn texts(strings: Seq<String>) -> Seq<Seq<char>> {
    strings.map_values(|s: String| s@)
}

/// A copy of a list of tokens.
pub(crate) fn clone_tokens(tokens: &Vec<Token>) -> (r: Vec<Token>)
    ensures
        views(r@) == views(tokens@),
{
    let r = tokens.clone();
    assert(views(r@) =~= views(tokens@));
    r
}

/// Whether two lists hold the same tokens in the same order.
pub(crate) fn same_tokens(a: &Vec<Token>, b: &Vec<Token>) -> (r: bool)
    ensures
        r == (views(a@) == views(b@)),
{
    let r = a == b;
    proof {
        if r {
            assert(views(a@) =~= views(b@));
        } else if views(a@) == views(b@) {
            assert(views(a@).len() == views(b@).len());
            assert forall|i: int| 0 <= i < a@.len() implies #[trigger] a@[i]@ == b@[i]@ by {
                assert(views(a@)[i] == views(b@)[i]);
            }
        }
    }
    r
}

/// A copy of a list of strings.
pub(crate) fn clone_texts(strings: &Vec<String>) -> (r: Vec<String>)
    ensures
        texts(r@) == texts(strings@),
{
    let r = strings.clone();
    assert(texts(r@) =~= texts(strings@));
    r
}

/// Whether two lists hold the same texts in the same order.
pub(crate) fn same_texts(a: &Vec<String>, b: &Vec<String>) -> (r: bool)
    ensures
        r == (texts(a@) == texts(b@)),
{
    if a.len() != b.len() {
        assert(texts(a@).len() != texts(b@).len());
        return false;
    }
    let mut i: usize = 0;
    while i < a.len()
        invariant
            i <= a.len(),
            a.len() == b.len(),
            forall|j: int| 0 <= j < i ==> texts(a@)[j] == texts(b@)[j],
        decreases a.len() - i,
    {
        if a[i] != b[i] {
            assert(texts(a@)[i as int] != texts(b@)[i as int]);
            return false;
        }
        i = i + 1;
    }
    assert(texts(a@) =~= texts(b@));
    true
}

/// Which bucket answered. It stands on reply rows only, never on a stored [`Token`].
#[derive(Clone, Copy, Debug, PartialEq, Eq, Hash, Structural)]
pub enum TokenSource {
    Custom,
    Downloaded,
    Embedded,
}

/// One reply row: the token and the bucket it came from.
#[derive(Debug, Eq, Hash)]
pub struct TokenRow {
    pub token: Token,
    pub source: TokenSource,
}

/// What a [`TokenRow`] says.
#[verifier::ext_equal]
pub struct RowView {
    pub token: TokenView,
    pub source: TokenSource,
}

impl View for TokenRow {
    type V = RowView;

    open spec fn view(&self) -> RowView {
        RowView { token: self.token@, source: self.source }
    }
}

impl Clone for TokenRow {
    fn clone(&self) -> (r: Self)
        ensures
            r@ == self@,
    {
        TokenRow { token: self.token.clone(), source: self.source }
    }
}

impl PartialEq for TokenRow {
    fn eq(&self, other: &Self) -> (r: bool) {
        self.token == other.token && self.source == other.source
    }
}

impl vstd::std_specs::cmp::PartialEqSpecImpl for TokenRow {
    open spec fn obeys_eq_spec() -> bool {
        true
    }

    open spec fn eq_spec(&self, other: &Self) -> bool {
        self@ == other@
    }
}

/// What a sequence of rows says, one by one.
pub open spec fn row_views(rows: Seq<TokenRow>) -> Seq<RowView> {
    rows.map_values(|r: TokenRow| r@)
}

/// Why an operation on a token list failed.
#[derive(Debug)]
pub enum TokenError {
    Proxy(String),
    Http(String),
    Parse(String),
    Io(String),
}

/// What a [`TokenError`] says.
pub enum TokenErrorView {
    Proxy(Seq<char>),
    Http(Seq<char>),
    Parse(Seq<char>),
    Io(Seq<char>),
}

impl View for TokenError {
    type V = TokenErrorView;

    open spec fn view(&self) -> TokenErrorView {
        match self {
            TokenError::Proxy(e) => TokenErrorView::Proxy(e@),
            TokenError::Http(e) => TokenErrorView::Http(e@),
            TokenError::Parse(e) => TokenErrorView::Parse(e@),
            TokenError::Io(e) => TokenErrorView::Io(e@),
        }
    }
}

impl TokenErrorView {
    /// The error as a user reads it.
    pub open spec fn message(self) -> Seq<char> {
        match self {
            TokenErrorView::Proxy(e) => "proxy: "@ + e,
            TokenErrorView::Http(e) => "http: "@ + e,
            TokenErrorView::Parse(e) => "parse: "@ + e,
            TokenErrorView::Io(e) => "io: "@ + e,
        }
    }
}

impl TokenError {
    /// The error as a user reads it.
    pub fn message(&self) -> (r: String)
        ensures
            r@ == self@.message(),
    {
        let (mut text, e) = match self {
            TokenError::Proxy(e) => ("proxy: ".to_string(), e),
            TokenError::Http(e) => ("http: ".to_string(), e),
            TokenError::Parse(e) => ("parse: ".to_string(), e),
            TokenError::Io(e) => ("io: ".to_string(), e),
        };
        text.append(e.as_str());
        text
    }
}

/// How the last fetch of one list URL went.
#[derive(Debug)]
pub struct ListSource {
    pub url: String,
    pub name: String,
    pub token_count: usize,
    pub ok: bool,
    pub error: Option<String>,
}

/// What a [`ListSource`] says.
#[verifier::ext_equal]
pub struct SourceView {
    pub url: Seq<char>,
    pub name: Seq<char>,
    pub token_count: usize,
    pub ok: bool,
    pub error: Option<Seq<char>>,
}

impl View for ListSource {
    type V = SourceView;

    open spec fn view(&self) -> SourceView {
        SourceView {
            url: self.url@,
            name: self.name@,
            token_count: self.token_count,
            ok: self.ok,
            error: opt_text(self.error),
        }
    }
}

impl Clone for ListSource {
    fn clone(&self) -> (r: Self)
        ensures
            r@ == self@,
    {
        ListSource {
            url: self.url.clone(),
            name: self.name.clone(),
            token_count: self.token_count,
            ok: self.ok,
            error: clone_text(&self.error),
        }
    }
}

impl Default for ListSource {
    fn default() -> (r: Self)
        ensures
            r.url@ == Seq::<char>::empty(),
            r.name@ == Seq::<char>::empty(),
            r.token_count == 0,
            !r.ok,
            r.error is None,
    {
        ListSource { url: String::new(), name: String::new(), token_count: 0, ok: false, error: None }
    }
}

/// What a sequence of sources says, one by one.
pub open spec fn source_views(sources: Seq<ListSource>) -> Seq<SourceView> {
    sources.map_values(|s: ListSource| s@)
}

/// A token entry as a token-list document spells it.
#[derive(Debug)]
pub struct RawToken {
    pub chain_id: u64,
    pub address: String,
    pub name: String,
    pub symbol: String,
    pub decimals: u8,
    pub logo_uri: Option<String>,
}

impl View for RawToken {
    type V = TokenView;

    open spec fn view(&self) -> TokenView {
        TokenView {
            chain_id: self.chain_id,
            address: self.address@,
            name: self.name@,
            symbol: self.symbol@,
            decimals: self.decimals,
            logo_uri: opt_text(self.logo_uri),
        }
    }
}

/// A document of the Uniswap token-list schema.
#[derive(Debug)]
pub struct TokenListDoc {
    pub name: String,
    pub tokens: Vec<RawToken>,
}

/// What a [`TokenListDoc`] says.
#[verifier::ext_equal]
pub struct DocView {
    pub name: Seq<char>,
    pub tokens: Seq<TokenView>,
}

impl View for TokenListDoc {
    type V = DocView;

    open spec fn view(&self) -> DocView {
        DocView { name: self.name@, tokens: self.tokens@.map_values(|t: RawToken| t@) }
    }
}

/// What reading a document came to: the document, or why the text is none.
pub open spec fn doc_view(doc: Result<TokenListDoc, String>) -> Result<DocView, Seq<char>> {
    match doc {
        Ok(d) => Ok(d@),
        Err(e) => Err(e@),
    }
}

/// What taking a list in came to: its name and tokens, or an error.
pub open spec fn list_view(list: Result<(String, Vec<Token>), TokenError>) -> Result<
    (Seq<char>, Seq<TokenView>),
    TokenErrorView,
> {
    match list {
        Ok((name, tokens)) => Ok((name@, views(tokens@))),
        Err(e) => Err(e@),
    }
}

/// The list that a document holds: its name and its tokens, in order. A text that is no document
/// is a [`TokenError::Parse`] with the reader's words.
pub open spec fn parsed(doc: Result<DocView, Seq<char>>) -> Result<
    (Seq<char>, Seq<TokenView>),
    TokenErrorView,
> {
    match doc {
        Ok(d) => Ok((d.name, d.tokens)),
        Err(e) => Err(TokenErrorView::Parse(e)),
    }
}

/// Turns a document into the list's name and its tokens.
pub fn parse_list(doc: Result<TokenListDoc, String>) -> (r: Result<(String, Vec<Token>), TokenError>)
    ensures
        list_view(r) == parsed(doc_view(doc)),
{
    match doc {
        Ok(doc) => {
            let ghost want = doc@;
            let raw = doc.tokens;
            let mut tokens: Vec<Token> = Vec::new();
            let mut i: usize = 0;
            while i < raw.len()
                invariant
                    i <= raw.len(),
                    tokens.len() == i,
                    want.tokens == raw@.map_values(|t: RawToken| t@),
                    forall|j: int| 0 <= j < i ==> tokens@[j]@ == want.tokens[j],
                decreases raw.len() - i,
            {
                let t = &raw[i];
                tokens.push(
                    Token {
                        chain_id: t.chain_id,
                        address: t.address.clone(),
                        name: t.name.clone(),
                        symbol: t.symbol.clone(),
                        decimals: t.decimals,
                        logo_uri: clone_text(&t.logo_uri),
                    },
                );
                i = i + 1;
            }
            assert(views(tokens@) =~= want.tokens);
            Ok((doc.name, tokens))
        },
        Err(e) => Err(TokenError::Parse(e)),
    }
}

/// The tokens of the list shipped with the module; none, if what was shipped is no list.
pub fn embedded_tokens(doc: Result<TokenListDoc, String>) -> (r: Vec<Token>)
    ensures
        views(r@) == match parsed(doc_view(doc)) {
            Ok((_, tokens)) => tokens,
            Err(_) => Seq::empty(),
        },
{
    match parse_list(doc) {
        Ok((_, tokens)) => tokens,
        Err(_) => {
            let none: Vec<Token> = Vec::new();
            assert(views(none@) =~= Seq::empty());
            none
        },
    }
}

} // verus!
