//! Pinned ERC-20 assets that the module vouches for independently of a downloaded list, and the
//! rows that are offered beside them.
use vstd::prelude::*;

use crate::text::{ascii_lower, trimmed};
use crate::token::{views, Token, TokenView};

verus! {

/// The canonical WETH9 deployment on mainnet.
pub const WETH_MAINNET: &'static str = "0xC02aaA39b223FE8D0A0e5C4F27eAD9083C756Cc2";

/// The pinned tokens of a chain: mainnet's canonical WETH9, and nothing anywhere else. Several
/// incompatible contracts go by that name on each testnet, so none is pinned there.
pub open spec fn pinned_tokens(chain_id: u64) -> Seq<TokenView> {
    if chain_id == 1 {
        seq![
            TokenView {
                chain_id: 1,
                address: WETH_MAINNET@,
                name: "Wrapped Ether"@,
                symbol: "WETH"@,
                decimals: 18,
                logo_uri: None,
            },
        ]
    } else {
        Seq::empty()
    }
}

/// An address is pinned on a chain: a pinned token has it, but for the case of its ASCII letters
/// and the white space around it.
pub open spec fn pins(chain_id: u64, address: Seq<char>) -> bool {
    exists|i: int|
        0 <= i < pinned_tokens(chain_id).len() && ascii_lower(
            (#[trigger] pinned_tokens(chain_id)[i]).address,
        ) == ascii_lower(trimmed(address))
}

/// The pinned tokens of a chain.
pub fn pinned(chain_id: u64) -> (r: Vec<Token>)
    ensures
        views(r@) == pinned_tokens(chain_id),
{
    let mut r: Vec<Token> = Vec::new();
    if chain_id == 1 {
        r.push(
            Token {
                chain_id,
                address: WETH_MAINNET.to_string(),
                name: "Wrapped Ether".to_string(),
                symbol: "WETH".to_string(),
                decimals: 18,
                logo_uri: None,
            },
        );
    }
    assert(views(r@) =~= pinned_tokens(chain_id));
    r
}

/// Whether an address is pinned on a chain.
pub fn is_pinned(chain_id: u64, address: &str) -> (r: bool)
    ensures
        r == pins(chain_id, address@),
{
    let tokens = pinned(chain_id);
    let mut i: usize = 0;
    while i < tokens.len()
        invariant
            i <= tokens.len(),
            views(tokens@) == pinned_tokens(chain_id),
            forall|j: int|
                0 <= j < i ==> ascii_lower((#[trigger] pinned_tokens(chain_id)[j]).address)
                    != ascii_lower(trimmed(address@)),
        decreases tokens.len() - i,
    {
        assert(views(tokens@)[i as int] == tokens@[i as int]@);
        if tokens[i].address.as_str().eq_ignore_ascii_case(address.trim()) {
            return true;
        }
        i = i + 1;
    }
    assert(tokens@.len() == pinned_tokens(chain_id).len());
    false
}

/// The chains that have a pinned token.
pub fn chains() -> (r: &'static [u64])
    ensures
        forall|c: u64| #[trigger] r@.contains(c) <==> pinned_tokens(c).len() > 0,
        r@ == seq![1u64],
{
    let r: &'static [u64] = &[1];
    assert(r@ =~= seq![1u64]);
    assert forall|c: u64| #[trigger] r@.contains(c) <==> pinned_tokens(c).len() > 0 by {
        if c == 1 {
            assert(r@[0] == c);
        }
    }
    r
}

/// Why a token could not be enabled or disabled.
#[derive(Clone, Copy, Debug, PartialEq, Eq, Structural)]
pub enum OfferedError {
    /// No bucket of the catalogue describes the address.
    NotListed,
    /// The address is pinned, and a pinned row cannot be disabled.
    Pinned,
}

impl OfferedError {
    /// The code for an error.
    pub open spec fn code_text(self) -> Seq<char> {
        match self {
            OfferedError::NotListed => "not_listed"@,
            OfferedError::Pinned => "pinned"@,
        }
    }

    /// The error as a user reads it.
    pub open spec fn message_text(self) -> Seq<char> {
        match self {
            OfferedError::NotListed => "no token list describes this address"@,
            OfferedError::Pinned => "a pinned token cannot be disabled"@,
        }
    }

    /// The code that a program tells errors apart by.
    pub fn code(&self) -> (r: String)
        ensures
            r@ == self.code_text(),
    {
        match self {
            OfferedError::NotListed => "not_listed".to_string(),
            OfferedError::Pinned => "pinned".to_string(),
        }
    }

    /// The error as a user reads it.
    pub fn message(&self) -> (r: String)
        ensures
            r@ == self.message_text(),
    {
        match self {
            OfferedError::NotListed => "no token list describes this address".to_string(),
            OfferedError::Pinned => "a pinned token cannot be disabled".to_string(),
        }
    }
}

/// A stored snapshot of an enabled token.
#[derive(Debug)]
pub struct EnabledTokenRow {
    pub token: Token,
    /// Whether a bucket of the catalogue still describes the address.
    pub resolved: bool,
}

/// What an [`EnabledTokenRow`] says.
#[verifier::ext_equal]
pub struct EnabledView {
    pub token: TokenView,
    pub resolved: bool,
}

impl View for EnabledTokenRow {
    type V = EnabledView;

    open spec fn view(&self) -> EnabledView {
        EnabledView { token: self.token@, resolved: self.resolved }
    }
}

/// What a sequence of enabled rows says, one by one.
pub open spec fn enabled_views(rows: Seq<EnabledTokenRow>) -> Seq<EnabledView> {
    rows.map_values(|r: EnabledTokenRow| r@)
}

} // verus!
