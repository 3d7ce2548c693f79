//! Configuration of the Streamable HTTP transport.

use crate::text;
use crate::text::{eq_ignoring_case, text_eq};
use rmcp::transport::streamable_http_server::session::local::LocalSessionManager;
use rmcp::transport::streamable_http_server::StreamableHttpServerConfig;
use std::sync::Arc;
use std::time::Duration;
use tokio_util::sync::CancellationToken;
use vstd::prelude::*;
use vstd::string::*;

verus! {

/// `rmcp`'s session manager, which holds the sessions of an HTTP server.
#[verifier::external_type_specification]
#[verifier::external_body]
pub struct ExLocalSessionManager(LocalSessionManager);

/// `rmcp`'s configuration of an HTTP server.
#[verifier::external_type_specification]
#[verifier::external_body]
pub struct ExStreamableHttpServerConfig(StreamableHttpServerConfig);

/// `tokio_util`'s cancellation token.
#[verifier::external_type_specification]
#[verifier::external_body]
pub struct ExCancellationToken(CancellationToken);

/// What the command line says of the HTTP server.
#[derive(Debug, Clone)]
pub struct HttpServerOptions {
    /// SSE keep-alive interval in seconds; `0` disables.
    pub sse_keep_alive_secs: u64,
    /// Run in stateless mode (POST only, no sessions).
    pub stateless: bool,
    /// Return `application/json` instead of SSE in stateless mode.
    pub json_response: bool,
}

/// The settings that an HTTP server configuration holds. Intervals are in seconds.
pub struct HttpSettings {
    pub sse_keep_alive: Option<u64>,
    pub sse_retry: Option<u64>,
    pub stateful_mode: bool,
    pub json_response: bool,
    pub cancellation_token: CancellationToken,
    pub allowed_hosts: Seq<Seq<char>>,
    pub allowed_origins: Seq<Seq<char>>,
    /// Whether sessions are kept in a store outside the server.
    pub has_session_store: bool,
}

/// The settings that a session manager holds. Intervals are in seconds.
pub struct SessionSettings {
    pub channel_capacity: usize,
    /// After how long a session that is not used ends.
    pub keep_alive: Option<u64>,
    pub sse_retry: Option<u64>,
    pub completed_cache_ttl: u64,
    pub init_timeout: Option<u64>,
}

/// The settings that a configuration was made with.
pub uninterp spec fn config_settings(config: StreamableHttpServerConfig) -> HttpSettings;

/// The settings that a session manager was made with.
pub uninterp spec fn session_settings(manager: LocalSessionManager) -> SessionSettings;

/// `rmcp`'s settings for sessions, with the given inactivity timeout.
pub open spec fn sessions_with(keep_alive: Option<u64>) -> SessionSettings {
    SessionSettings {
        channel_capacity: 16,
        keep_alive,
        sse_retry: Some(3),
        completed_cache_ttl: 60,
        init_timeout: Some(60),
    }
}

/// An interval in seconds, where `0` stands for none.
pub open spec fn interval(secs: u64) -> Option<u64> {
    if secs == 0 {
        None
    } else {
        Some(secs)
    }
}

fn interval_of(secs: u64) -> (r: Option<u64>)
    ensures
        r == interval(secs),
{
    if secs == 0 {
        None
    } else {
        Some(secs)
    }
}

/// Calls `LocalSessionManager::default` and sets the public field `session_config.keep_alive`
/// of what it gives: a manager with that inactivity timeout, and `rmcp`'s defaults for its
/// other settings.
#[verifier::external_body]
fn session_manager_with(keep_alive: Option<u64>) -> (manager: Arc<LocalSessionManager>)
    ensures
        session_settings(*manager) == sessions_with(keep_alive),
{
    let mut manager = LocalSessionManager::default();
    manager.session_config.keep_alive = keep_alive.map(Duration::from_secs);
    Arc::new(manager)
}

/// Calls `StreamableHttpServerConfig::default`: SSE keep-alive after 15 seconds and retry
/// after 3, sessions, no JSON responses, only loopback hosts, any origin, and no session store.
#[verifier::external_body]
fn default_config() -> (config: StreamableHttpServerConfig)
    ensures
        config_settings(config).sse_keep_alive == Some(15u64),
        config_settings(config).sse_retry == Some(3u64),
        config_settings(config).stateful_mode,
        !config_settings(config).json_response,
        config_settings(config).allowed_hosts == seq!["localhost"@, "127.0.0.1"@, "::1"@],
        config_settings(config).allowed_origins == Seq::<Seq<char>>::empty(),
        !config_settings(config).has_session_store,
{
    StreamableHttpServerConfig::default()
}

/// Calls `StreamableHttpServerConfig::with_sse_keep_alive`: sets that interval, and keeps
/// every other setting.
#[verifier::external_body]
fn with_sse_keep_alive(config: StreamableHttpServerConfig, secs: Option<u64>) -> (r:
    StreamableHttpServerConfig)
    ensures
        config_settings(r) == (HttpSettings { sse_keep_alive: secs, ..config_settings(config) }),
{
    config.with_sse_keep_alive(secs.map(Duration::from_secs))
}

/// Calls `StreamableHttpServerConfig::with_sse_retry`: sets that interval, and keeps every
/// other setting.
#[verifier::external_body]
fn with_sse_retry(config: StreamableHttpServerConfig, secs: Option<u64>) -> (r:
    StreamableHttpServerConfig)
    ensures
        config_settings(r) == (HttpSettings { sse_retry: secs, ..config_settings(config) }),
{
    config.with_sse_retry(secs.map(Duration::from_secs))
}

/// `StreamableHttpServerConfig::with_stateful_mode` sets that mode, and keeps every other
/// setting.
pub assume_specification[ StreamableHttpServerConfig::with_stateful_mode ](
    config: StreamableHttpServerConfig,
    stateful: bool,
) -> (r: StreamableHttpServerConfig)
    ensures
        config_settings(r) == (HttpSettings { stateful_mode: stateful, ..config_settings(config) }),
;

/// `StreamableHttpServerConfig::with_json_response` sets that flag, and keeps every other
/// setting.
pub assume_specification[ StreamableHttpServerConfig::with_json_response ](
    config: StreamableHttpServerConfig,
    json_response: bool,
) -> (r: StreamableHttpServerConfig)
    ensures
        config_settings(r) == (HttpSettings { json_response, ..config_settings(config) }),
;

/// `StreamableHttpServerConfig::with_cancellation_token` sets that token, and keeps every
/// other setting.
pub assume_specification[ StreamableHttpServerConfig::with_cancellation_token ](
    config: StreamableHttpServerConfig,
    token: CancellationToken,
) -> (r: StreamableHttpServerConfig)
    ensures
        config_settings(r) == (HttpSettings {
            cancellation_token: token,
            ..config_settings(config)
        }),
;

/// Calls `StreamableHttpServerConfig::with_allowed_hosts`: sets that list, and keeps every
/// other setting.
#[verifier::external_body]
fn with_allowed_hosts(config: StreamableHttpServerConfig, hosts: Vec<String>) -> (r:
    StreamableHttpServerConfig)
    ensures
        config_settings(r) == (HttpSettings {
            allowed_hosts: hosts.deep_view(),
            ..config_settings(config)
        }),
{
    config.with_allowed_hosts(hosts)
}

/// A session manager whose sessions end after that many seconds of inactivity. `0` disables
/// the timeout, which can leave sessions behind when connections drop silently, so a generous
/// positive value is the better choice.
pub fn build_session_manager(session_keep_alive_secs: u64) -> (manager: Arc<LocalSessionManager>)
    ensures
        session_settings(*manager) == sessions_with(interval(session_keep_alive_secs)),
{
    session_manager_with(interval_of(session_keep_alive_secs))
}

/// The settings of an HTTP server for `opts`.
pub open spec fn settings_for(opts: HttpServerOptions, cancel: CancellationToken) -> HttpSettings {
    HttpSettings {
        sse_keep_alive: interval(opts.sse_keep_alive_secs),
        sse_retry: None,
        stateful_mode: !opts.stateless,
        json_response: opts.json_response && opts.stateless,
        cancellation_token: cancel,
        allowed_hosts: Seq::empty(),
        allowed_origins: Seq::empty(),
        has_session_store: false,
    }
}

/// The HTTP server configuration for `opts`. A JSON response is given in stateless mode only,
/// and the list of allowed hosts is empty: `Host` headers are checked by `host_is_allowed` before
/// a request gets this far.
pub fn build_streamable_config(opts: HttpServerOptions, cancel: CancellationToken) -> (config:
    StreamableHttpServerConfig)
    ensures
        config_settings(config) == settings_for(opts, cancel),
{
    let config = with_sse_keep_alive(default_config(), interval_of(opts.sse_keep_alive_secs));
    let config = with_sse_retry(config, None);
    let config = config.with_stateful_mode(!opts.stateless);
    let config = config.with_json_response(opts.json_response && opts.stateless);
    let config = config.with_cancellation_token(cancel);
    let hosts: Vec<String> = Vec::new();
    assert(hosts.deep_view() =~= Seq::empty());
    with_allowed_hosts(config, hosts)
}

/// The hosts that requests may name: the loopback ones, the address that the server listens on,
/// and those that were given. A given `*` or empty host lets every host through, for which the
/// empty list stands.
pub open spec fn host_list(listen_ip: Seq<char>, given: Seq<Seq<char>>) -> Seq<Seq<char>> {
    if given.contains("*"@) || given.contains(""@) {
        Seq::empty()
    } else {
        seq!["localhost"@, "127.0.0.1"@, "::1"@, listen_ip] + given
    }
}

/// The hosts that requests may name; the empty list lets every host through.
pub fn allowed_hosts(listen_ip: &str, given: &Vec<String>) -> (r: Vec<String>)
    ensures
        r.deep_view() == host_list(listen_ip@, given.deep_view()),
{
    let ghost all = given.deep_view();
    let mut r: Vec<String> = Vec::new();
    r.push("localhost".to_owned());
    r.push("127.0.0.1".to_owned());
    r.push("::1".to_owned());
    r.push(listen_ip.to_owned());
    let ghost own = seq!["localhost"@, "127.0.0.1"@, "::1"@, listen_ip@];
    assert(r.deep_view() =~= own + all.take(0));
    let mut i: usize = 0;
    while i < given.len()
        invariant
            i <= given.len(),
            all == given.deep_view(),
            r.deep_view() == own + all.take(i as int),
            forall|k: int| 0 <= k < i ==> #[trigger] all[k] != "*"@ && all[k] != ""@,
        decreases given.len() - i,
    {
        let host = given[i].as_str();
        assert(all[i as int] == host@);
        if text_eq(host, "*") || text_eq(host, "") {
            let none: Vec<String> = Vec::new();
            assert(none.deep_view() =~= Seq::empty());
            return none;
        }
        let ghost before = r.deep_view();
        r.push(host.to_owned());
        assert(r.deep_view() =~= before.push(all[i as int]));
        assert(before.push(all[i as int]) =~= own + all.take(i + 1));
        i = i + 1;
    }
    assert(all.take(all.len() as int) =~= all);
    r
}

/// Whether a request may name `host`: where every host is let through, where it is in the list,
/// up to ASCII case, or where it is an IP address that the server is reached through.
pub open spec fn passes_host_check(
    host: Seq<char>,
    reachable_ip: bool,
    allowed: Seq<Seq<char>>,
) -> bool {
    allowed.len() == 0 || reachable_ip || exists|i: int|
        0 <= i < allowed.len() && text::same_ignoring_case(#[trigger] allowed[i], host)
}

/// Whether a request may name `host`, given whether it is an IP address that the server is
/// reached through, and the hosts that are allowed.
pub fn host_is_allowed(host: &str, reachable_ip: bool, allowed: &Vec<String>) -> (r: bool)
    ensures
        r == passes_host_check(host@, reachable_ip, allowed.deep_view()),
{
    let ghost all = allowed.deep_view();
    assert(all.len() == allowed@.len());
    if allowed.len() == 0 || reachable_ip {
        return true;
    }
    let mut i: usize = 0;
    while i < allowed.len()
        invariant
            i <= allowed.len(),
            all == allowed.deep_view(),
            all.len() == allowed@.len(),
            allowed@.len() > 0,
            !reachable_ip,
            forall|k: int| 0 <= k < i ==> !text::same_ignoring_case(#[trigger] all[k], host@),
        decreases allowed.len() - i,
    {
        assert(all[i as int] == allowed@[i as int]@);
        if eq_ignoring_case(allowed[i].as_str(), host) {
            return true;
        }
        i = i + 1;
    }
    false
}

/// Whether a request for JSON responses goes unheeded: it needs stateless mode.
pub fn json_response_is_ignored(opts: &HttpServerOptions) -> (r: bool)
    ensures
        r == (opts.json_response && !opts.stateless),
{
    opts.json_response && !opts.stateless
}

/// `0` seconds stand for no interval, and any other number for itself.
pub proof fn zero_stands_for_no_interval(secs: u64)
    ensures
        interval(secs) is None <==> secs == 0,
        secs > 0 ==> interval(secs) == Some(secs),
{
}

/// The loopback hosts, the address that the server listens on and every host that was given may
/// be named, in either case; no other host may, unless a `*` or an empty host was given, or it is
/// an address that the server is reached through.
pub proof fn a_host_is_allowed_only_if_it_was_named(
    listen_ip: Seq<char>,
    given: Seq<Seq<char>>,
    host: Seq<char>,
    reachable_ip: bool,
)
    ensures
        passes_host_check(host, reachable_ip, host_list(listen_ip, given)) <==> {
            ||| reachable_ip
            ||| given.contains("*"@)
            ||| given.contains(""@)
            ||| text::same_ignoring_case("localhost"@, host)
            ||| text::same_ignoring_case("127.0.0.1"@, host)
            ||| text::same_ignoring_case("::1"@, host)
            ||| text::same_ignoring_case(listen_ip, host)
            ||| exists|i: int|
                0 <= i < given.len() && text::same_ignoring_case(#[trigger] given[i], host)
        },
{
    let own = seq!["localhost"@, "127.0.0.1"@, "::1"@, listen_ip];
    let all = own + given;
    assert(all[0] == own[0] && all[1] == own[1] && all[2] == own[2] && all[3] == own[3]);
    if exists|i: int| 0 <= i < given.len() && text::same_ignoring_case(#[trigger] given[i], host) {
        let i = choose|i: int|
            0 <= i < given.len() && text::same_ignoring_case(#[trigger] given[i], host);
        assert(all[i + 4] == given[i]);
    }
    if exists|i: int| 0 <= i < all.len() && text::same_ignoring_case(#[trigger] all[i], host) {
        let i = choose|i: int|
            0 <= i < all.len() && text::same_ignoring_case(#[trigger] all[i], host);
        if i >= 4 {
            assert(all[i] == given[i - 4]);
        }
    }
}

/// A server keeps sessions exactly where it is not stateless, and answers with JSON only where it
/// keeps none and that was asked for. It stops with the token that it was given, sends keep-alives
/// as often as was asked for, tells clients no retry interval, and leaves the check of hosts and
/// origins to others.
pub proof fn a_server_does_what_its_options_say(opts: HttpServerOptions, cancel: CancellationToken)
    ensures
        ({
            let settings = settings_for(opts, cancel);
            &&& settings.stateful_mode <==> !opts.stateless
            &&& settings.json_response ==> !settings.stateful_mode
            &&& opts.stateless ==> settings.json_response == opts.json_response
            &&& settings.cancellation_token == cancel
            &&& settings.sse_keep_alive is None <==> opts.sse_keep_alive_secs == 0
            &&& settings.sse_keep_alive matches Some(secs) ==> secs == opts.sse_keep_alive_secs
            &&& settings.sse_retry is None
            &&& settings.allowed_hosts.len() == 0 && settings.allowed_origins.len() == 0
            &&& !settings.has_session_store
        }),
{
}

} // verus!
