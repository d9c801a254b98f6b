//! What an edit of the configuration stores, what a list opens with, and what is told of it.
use vstd::prelude::*;

use crate::config::{ConfigSource, ConfigView, RecordView, WireView};
use crate::model::ListView;
use crate::module::{
    fails, limit_of, offset_of, reads_chain, ModuleError, ModuleErrorView, MutationView, StatusView,
};
use crate::offered::{pinned_tokens, pins, OfferedError};
use crate::store::{DirView, WriteView};
use crate::text::{ascii_lower, trimmed};
use crate::token::{TokenErrorView, TokenView};

verus! {

/// What an edit says of a key is what is stored under it.
pub proof fn law_what_is_said_is_stored(w: WireView, c: ConfigView)
    ensures
        w.list_urls matches Some(urls) ==> w.over(c).list_urls == urls,
        w.proxy matches Some(p) ==> w.over(c).proxy == p,
        w.proxy_required matches Some(b) ==> w.over(c).proxy_required == b,
        w.refresh_secs matches Some(n) ==> w.over(c).refresh_secs == n,
        w.timeout_secs matches Some(n) ==> w.over(c).timeout_secs == n,
        w.use_embedded_list matches Some(b) ==> w.over(c).use_embedded_list == b,
{
}

/// An edit is made to the configuration that is stored: afterwards every key holds what the edit
/// says of it, or what it held before where the edit is silent, and the configuration is somebody's
/// own.
pub proof fn law_an_edit_is_made_to_what_is_stored(w: WireView, v: ListView)
    ensures
        ({
            let after = MutationView::Configure(w).apply(v);
            &&& after.config_source == ConfigSource::External
            &&& w.list_urls matches Some(urls) ==> after.config.list_urls == urls
            &&& w.proxy matches Some(p) ==> after.config.proxy == p
            &&& w.proxy_required matches Some(b) ==> after.config.proxy_required == b
            &&& w.refresh_secs matches Some(n) ==> after.config.refresh_secs == n
            &&& w.timeout_secs matches Some(n) ==> after.config.timeout_secs == n
            &&& w.use_embedded_list matches Some(b) ==> after.config.use_embedded_list == b
            &&& w.list_urls is None ==> after.config.list_urls == v.config.list_urls
            &&& w.proxy is None ==> after.config.proxy == v.config.proxy
            &&& w.proxy_required is None ==> after.config.proxy_required == v.config.proxy_required
            &&& w.refresh_secs is None ==> after.config.refresh_secs == v.config.refresh_secs
            &&& w.timeout_secs is None ==> after.config.timeout_secs == v.config.timeout_secs
            &&& w.use_embedded_list is None ==> after.config.use_embedded_list
                == v.config.use_embedded_list
        }),
{
}

/// The built-in configuration is offline: no list, no proxy, no schedule, half a minute for a fetch
/// and the shipped list on.
pub proof fn law_the_defaults_are_offline()
    ensures
        ConfigView::defaults().list_urls.len() == 0,
        ConfigView::defaults().proxy is None,
        !ConfigView::defaults().proxy_required,
        ConfigView::defaults().refresh_secs == 0,
        ConfigView::defaults().timeout_secs == 30,
        ConfigView::defaults().use_embedded_list,
{
}

/// Applying the defaults to an unconfigured list sets every key and names the defaults as their
/// source; a configured list stays as it is.
pub proof fn law_defaulting_sets_every_key(v: ListView)
    ensures
        v.config_source == ConfigSource::Unset ==> {
            let after = v.defaulted();
            &&& after.config_source == ConfigSource::Default
            &&& after.config.list_urls.len() == 0
            &&& after.config.proxy is None
            &&& !after.config.proxy_required
            &&& after.config.refresh_secs == 0
            &&& after.config.timeout_secs == 30
            &&& after.config.use_embedded_list
        },
        v.config_source == ConfigSource::Default || v.config_source == ConfigSource::External
            ==> v.defaulted() == v,
{
}

/// Whatever is called, a source that is set stays set, and somebody's own stays theirs.
pub proof fn law_the_source_moves_one_way(m: MutationView, v: ListView)
    ensures
        v.config_source == ConfigSource::External ==> m.apply(v).config_source
            == ConfigSource::External,
        v.config_source == ConfigSource::Default ==> m.apply(v).config_source
            != ConfigSource::Unset,
        v.config_source == ConfigSource::Unset && !(m is Configure) && !(m is InitDefaults)
            ==> m.apply(v).config_source == ConfigSource::Unset,
{
}

/// A list opens with what its files hold, file by file. Where a file is absent its part is empty, or
/// as the defaults have it; nothing is reported of any URL and nothing is to be written.
pub proof fn law_a_list_opens_with_its_files(dir: DirView, shipped: Seq<TokenView>)
    ensures
        ({
            let v = ListView::opened(dir, shipped);
            &&& v.shipped == shipped
            &&& v.backed
            &&& v.sources.len() == 0
            &&& v.writes.len() == 0
            &&& match dir.token_cache {
                Some(tokens) => v.downloaded == tokens,
                None => v.downloaded.len() == 0,
            }
            &&& match dir.custom_tokens {
                Some(tokens) => v.custom == tokens,
                None => v.custom.len() == 0,
            }
            &&& match dir.enabled_tokens {
                Some(tokens) => v.enabled == tokens,
                None => v.enabled.len() == 0,
            }
            &&& dir.list_config is None ==> v.config == ConfigView::defaults() && v.config_source
                == ConfigSource::Unset
        }),
{
}

/// A stored record is taken over with its source, and one without a source is somebody's own. It
/// comes before a bare reading of the same file.
pub proof fn law_a_record_is_taken_over(dir: DirView, shipped: Seq<TokenView>, r: RecordView)
    requires
        dir.list_config matches Some(s) && s.record == Some(r),
    ensures
        ListView::opened(dir, shipped).config == r.config,
        r.source == ConfigSource::Default ==> ListView::opened(dir, shipped).config_source
            == ConfigSource::Default,
        r.source != ConfigSource::Default ==> ListView::opened(dir, shipped).config_source
            == ConfigSource::External,
{
}

/// A list without a directory holds what was shipped and nothing else, under the defaults.
pub proof fn law_a_new_list_is_empty(shipped: Seq<TokenView>)
    ensures
        ({
            let v = ListView::fresh(shipped);
            &&& v.shipped == shipped
            &&& v.custom.len() == 0
            &&& v.downloaded.len() == 0
            &&& v.enabled.len() == 0
            &&& v.sources.len() == 0
            &&& v.writes.len() == 0
            &&& !v.backed
            &&& v.config == ConfigView::defaults()
            &&& v.config_source == ConfigSource::Unset
        }),
{
}

/// A file that is written reads as what was written, and every other file as before.
pub proof fn law_a_write_lands_in_its_file(dir: DirView, w: WriteView)
    ensures
        ({
            let after = dir.written(w);
            &&& match w {
                WriteView::ListConfig(r) => after.list_config matches Some(s) && s.record == Some(
                    r,
                ),
                _ => after.list_config == dir.list_config,
            }
            &&& after.token_cache == match w {
                WriteView::TokenCache(t) => Some(t),
                _ => dir.token_cache,
            }
            &&& after.custom_tokens == match w {
                WriteView::CustomTokens(t) => Some(t),
                _ => dir.custom_tokens,
            }
            &&& after.enabled_tokens == match w {
                WriteView::EnabledTokens(t) => Some(t),
                _ => dir.enabled_tokens,
            }
        }),
{
}

/// The status tells the source, the configuration where one was set, and how many tokens the user
/// has, how many are downloaded, and how many are shipped where those are on.
pub proof fn law_the_status_tells_the_state(v: ListView)
    ensures
        ({
            let s = StatusView::of(v);
            &&& s.source == v.config_source
            &&& s.config == if v.config_source == ConfigSource::Unset {
                None
            } else {
                Some(v.config)
            }
            &&& s.custom == v.custom.len()
            &&& s.downloaded == v.downloaded.len()
            &&& s.embedded == if v.config.use_embedded_list {
                v.shipped.len()
            } else {
                0
            }
            &&& s.state() == if v.config_source == ConfigSource::Unset {
                "unconfigured"@
            } else {
                "configured"@
            }
        }),
{
}

/// Each source has its own word.
pub proof fn law_sources_have_their_words(s: ConfigSource)
    ensures
        s.word() == match s {
            ConfigSource::Unset => "none"@,
            ConfigSource::Default => "default"@,
            ConfigSource::External => "external"@,
        },
{
}

/// An error of a list reads as its kind and its words.
pub proof fn law_errors_read_as_their_kind(e: TokenErrorView)
    ensures
        e.message() == match e {
            TokenErrorView::Proxy(words) => "proxy: "@ + words,
            TokenErrorView::Http(words) => "http: "@ + words,
            TokenErrorView::Parse(words) => "parse: "@ + words,
            TokenErrorView::Io(words) => "io: "@ + words,
        },
{
}

/// An error of the module passes on the words of what went wrong, and has a code where callers tell
/// it apart by one.
pub proof fn law_module_errors_pass_words_on(e: ModuleErrorView)
    ensures
        e matches ModuleErrorView::Token(inner) ==> e.message() == inner.message(),
        e matches ModuleErrorView::BadAddresses(words) ==> e.message() == words,
        e matches ModuleErrorView::Offered(inner) ==> e.message() == inner.message_text(),
        e.message() == match e {
            ModuleErrorView::NotReady => "token_list not initialized (context not ready)"@,
            ModuleErrorView::Busy => "a refresh is already running"@,
            ModuleErrorView::BadChain => "chainId must be non-negative"@,
            _ => e.message(),
        },
        e.code() == match e {
            ModuleErrorView::BadChain => Some("bad_chain"@),
            ModuleErrorView::Offered(OfferedError::NotListed) => Some("not_listed"@),
            ModuleErrorView::Offered(OfferedError::Pinned) => Some("pinned"@),
            _ => None,
        },
{
}

/// A call that fails with an error returns that error, to the letter.
pub proof fn law_a_failure_is_the_error<T>(r: Result<T, ModuleError>, e: ModuleErrorView)
    ensures
        fails(r, e) <==> r is Err && r->Err_0@ == e,
{
}

/// A call that reads a chain refuses a negative one first and then a list that is not there, and
/// answers everything else.
pub proof fn law_when_a_chain_is_read<T>(
    r: Result<T, ModuleError>,
    chain_id: i64,
    list: Option<ListView>,
)
    ensures
        reads_chain(r, chain_id, list) && chain_id < 0 ==> r is Err && r->Err_0@
            == ModuleErrorView::BadChain,
        reads_chain(r, chain_id, list) && chain_id >= 0 && list is None ==> r is Err && r->Err_0@
            == ModuleErrorView::NotReady,
        reads_chain(r, chain_id, list) && chain_id >= 0 && list is Some ==> r is Ok,
{
}

/// An offset is taken as it is, unless it is negative or no size; a limit likewise, and a limit of
/// nothing is no limit.
pub proof fn law_offsets_and_limits(n: i64)
    ensures
        0 <= n <= usize::MAX ==> offset_of(n) == n,
        n < 0 || n > usize::MAX ==> offset_of(n) == 0,
        0 < n <= usize::MAX ==> limit_of(n) == Some(n as nat),
        n <= 0 || n > usize::MAX ==> limit_of(n) is None,
{
}

/// Mainnet pins its canonical WETH9 and no other chain pins anything. An address is pinned there
/// whatever the case of its ASCII letters and the white space around it.
pub proof fn law_mainnet_alone_pins_a_token(c: u64, address: Seq<char>)
    ensures
        pinned_tokens(c).len() == if c == 1 {
            1nat
        } else {
            0
        },
        c == 1 ==> {
            let t = pinned_tokens(c)[0];
            &&& t.chain_id == 1
            &&& t.address == "0xC02aaA39b223FE8D0A0e5C4F27eAD9083C756Cc2"@
            &&& t.name == "Wrapped Ether"@
            &&& t.symbol == "WETH"@
            &&& t.decimals == 18
            &&& t.logo_uri is None
        },
        pins(c, address) <==> c == 1 && ascii_lower(trimmed(address)) == ascii_lower(
            "0xC02aaA39b223FE8D0A0e5C4F27eAD9083C756Cc2"@,
        ),
{
    if c == 1 {
        let t = pinned_tokens(c)[0];
        assert(ascii_lower(t.address) == ascii_lower("0xC02aaA39b223FE8D0A0e5C4F27eAD9083C756Cc2"@));
    }
}

} // verus!
