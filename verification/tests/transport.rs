use ida_mcp::cancellation::{cancellable_auto_wait, watch_step, AutoWait, WatchAction};
use ida_mcp::error::ToolError;
use ida_mcp::http_config::{
    allowed_hosts, build_session_manager, build_streamable_config, host_is_allowed,
    json_response_is_ignored, HttpServerOptions,
};
use ida_mcp::server::{serve_step, ServeAction, ServeEvent};
use ida_mcp::stdio_transport::{
    IdaSafeStdioTransport, InboundMessage, OutboundMessage, RequestId,
};
use std::time::Duration;
use tokio_util::sync::CancellationToken;

fn opts() -> HttpServerOptions {
    HttpServerOptions {
        sse_keep_alive_secs: 15,
        stateless: false,
        json_response: false,
    }
}

#[test]
fn rmcp_host_check_is_disabled_for_outer_access_policy() {
    let config = build_streamable_config(opts(), CancellationToken::new());
    assert!(
        config.allowed_hosts.is_empty(),
        "HttpAccessService owns Host validation so rmcp's duplicate check stays disabled"
    );
}

#[test]
fn json_response_only_enabled_in_stateless_mode() {
    let mut opts = opts();
    opts.json_response = true;

    let stateful = build_streamable_config(opts.clone(), CancellationToken::new());
    assert!(!stateful.json_response);
    assert!(json_response_is_ignored(&opts));

    opts.stateless = true;
    assert!(!json_response_is_ignored(&opts));
    let stateless = build_streamable_config(opts, CancellationToken::new());
    assert!(stateless.json_response);
}

#[test]
fn session_keep_alive_zero_disables_timeout() {
    let manager = build_session_manager(0);
    assert!(
        manager.session_config.keep_alive.is_none(),
        "0 must disable the rmcp session inactivity timeout"
    );
}

#[test]
fn session_keep_alive_overrides_rmcp_default() {
    let manager = build_session_manager(1800);
    assert_eq!(
        manager.session_config.keep_alive,
        Some(Duration::from_secs(1800)),
        "explicit value must override rmcp's 300s default that killed long IDA calls"
    );
}

#[test]
fn session_settings_other_than_the_timeout_are_the_defaults() {
    let manager = build_session_manager(7);
    assert_eq!(manager.session_config.channel_capacity, 16);
    assert_eq!(manager.session_config.sse_retry, Some(Duration::from_secs(3)));
    assert_eq!(
        manager.session_config.completed_cache_ttl,
        Duration::from_secs(60)
    );
    assert_eq!(
        manager.session_config.init_timeout,
        Some(Duration::from_secs(60))
    );
}

#[test]
fn http_settings_follow_the_options() {
    let cancel = CancellationToken::new();
    let config = build_streamable_config(opts(), cancel.clone());
    assert_eq!(config.sse_keep_alive, Some(Duration::from_secs(15)));
    assert_eq!(config.sse_retry, None);
    assert!(config.stateful_mode);
    assert!(config.allowed_origins.is_empty());
    assert!(config.session_store.is_none());
    assert!(!config.cancellation_token.is_cancelled());
    cancel.cancel();
    assert!(config.cancellation_token.is_cancelled());

    let silent = build_streamable_config(
        HttpServerOptions {
            sse_keep_alive_secs: 0,
            stateless: true,
            json_response: false,
        },
        CancellationToken::new(),
    );
    assert_eq!(silent.sse_keep_alive, None);
    assert!(!silent.stateful_mode);
    assert!(!silent.json_response);
}

fn call(tool: &str, id: i64) -> InboundMessage {
    InboundMessage::ToolCall {
        id: RequestId::Number(id),
        tool: tool.to_string(),
    }
}

fn text_id(id: &str) -> RequestId {
    RequestId::Text(id.to_string())
}

#[test]
fn only_open_idb_requests_pause_stdin_reads() {
    let open = call("open_idb", 1);
    let segments = call("segments", 2);

    assert_eq!(
        IdaSafeStdioTransport::open_request_id(&open),
        Some(RequestId::Number(1))
    );
    assert_eq!(IdaSafeStdioTransport::open_request_id(&segments), None);

    let mut guard = IdaSafeStdioTransport::new();
    guard.receive(&segments);
    assert!(guard.read_allowed());
    guard.receive(&open);
    assert!(!guard.read_allowed());
}

#[test]
fn an_open_keeps_reads_paused_until_it_is_answered() {
    let mut guard = IdaSafeStdioTransport::default();
    guard.receive(&call("open_idb", 1));
    assert!(!guard.send(&OutboundMessage::Notification, true));
    assert!(!guard.send(
        &OutboundMessage::Response {
            id: RequestId::Number(2)
        },
        true
    ));
    assert!(!guard.send(&OutboundMessage::Error { id: None }, true));
    assert!(!guard.read_allowed());
    assert!(guard.send(
        &OutboundMessage::Error {
            id: Some(RequestId::Number(1))
        },
        false
    ));
    assert!(guard.read_allowed());
}

#[test]
fn the_clients_answer_is_read_during_an_open() {
    let mut guard = IdaSafeStdioTransport::new();
    assert!(!guard.send(
        &OutboundMessage::Request {
            id: text_id("early")
        },
        true
    ));
    guard.receive(&call("open_idb", 1));
    assert!(!guard.send(
        &OutboundMessage::Request {
            id: text_id("lost")
        },
        false
    ));
    assert!(!guard.read_allowed());
    assert!(guard.send(
        &OutboundMessage::Request {
            id: text_id("roots")
        },
        true
    ));
    assert!(guard.read_allowed());
    guard.receive(&InboundMessage::Response {
        id: text_id("other"),
    });
    assert!(guard.read_allowed());
    guard.receive(&InboundMessage::Response {
        id: text_id("roots"),
    });
    assert!(!guard.read_allowed());
    assert!(guard.send(
        &OutboundMessage::Response {
            id: RequestId::Number(1)
        },
        true
    ));
    assert!(guard.read_allowed());
}

#[test]
fn message_ids_are_found_by_their_direction() {
    let error = InboundMessage::Error {
        id: Some(RequestId::Number(4)),
    };
    assert_eq!(
        IdaSafeStdioTransport::inbound_response_id(&error),
        Some(RequestId::Number(4))
    );
    assert_eq!(
        IdaSafeStdioTransport::inbound_response_id(&InboundMessage::Request {
            id: RequestId::Number(4)
        }),
        None
    );
    assert_eq!(
        IdaSafeStdioTransport::outbound_request_id(&OutboundMessage::Request {
            id: RequestId::Number(5)
        }),
        Some(RequestId::Number(5))
    );
    assert_eq!(
        IdaSafeStdioTransport::response_id(&OutboundMessage::Notification),
        None
    );
    assert!(!RequestId::Number(1).same(&text_id("1")));
}

#[test]
fn a_watcher_signals_a_cancellation_once_and_never_after_the_wait() {
    assert_eq!(watch_step(false, false), WatchAction::Sleep);
    assert_eq!(watch_step(false, true), WatchAction::SignalCancel);
    assert_eq!(watch_step(true, true), WatchAction::Stop);
    assert_eq!(watch_step(true, false), WatchAction::Stop);
}

#[test]
fn a_wait_succeeds_only_when_analysis_was_completed() {
    let stop = || ToolError::Cancelled("stop".to_string());
    assert_eq!(
        cancellable_auto_wait(AutoWait::CancelledBefore(stop())),
        Err(stop())
    );
    assert_eq!(
        cancellable_auto_wait(AutoWait::Waited {
            cancelled: Some(stop()),
            completed: true
        }),
        Err(stop())
    );
    assert_eq!(
        cancellable_auto_wait(AutoWait::Waited {
            cancelled: None,
            completed: false
        }),
        Err(ToolError::Cancelled(
            "IDA auto-analysis was cancelled".to_string()
        ))
    );
    assert_eq!(
        cancellable_auto_wait(AutoWait::Waited {
            cancelled: None,
            completed: true
        }),
        Ok(true)
    );
}

#[test]
fn a_server_ends_with_a_shutdown_or_with_its_client() {
    assert_eq!(
        serve_step(ServeEvent::ShutdownRequested),
        ServeAction::CloseService
    );
    assert_eq!(
        serve_step(ServeEvent::Polled {
            transport_closed: true
        }),
        ServeAction::AwaitService
    );
    assert_eq!(
        serve_step(ServeEvent::Polled {
            transport_closed: false
        }),
        ServeAction::KeepServing
    );
}

#[test]
fn reads_stay_paused_until_every_open_is_answered() {
    let response = |id: i64| OutboundMessage::Response {
        id: RequestId::Number(id),
    };
    let mut guard = IdaSafeStdioTransport::new();
    guard.receive(&call("open_idb", 1));
    assert!(guard.send(
        &OutboundMessage::Request {
            id: text_id("roots")
        },
        true
    ));
    guard.receive(&call("open_idb", 2));
    assert!(guard.read_allowed());
    guard.receive(&InboundMessage::Response {
        id: text_id("roots"),
    });
    assert!(!guard.read_allowed());
    assert!(guard.send(&response(2), true));
    assert!(!guard.read_allowed());
    assert!(!guard.send(&response(2), true));
    assert!(!guard.read_allowed());
    assert!(guard.send(&response(1), true));
    assert!(guard.read_allowed());
}

#[test]
fn one_open_answered_leaves_the_clients_answer_awaited() {
    let mut guard = IdaSafeStdioTransport::new();
    guard.receive(&call("open_idb", 1));
    guard.send(
        &OutboundMessage::Request {
            id: text_id("roots")
        },
        true,
    );
    guard.receive(&call("open_idb", 2));
    guard.receive(&call("open_idb", 2));
    assert!(guard.send(
        &OutboundMessage::Response {
            id: RequestId::Number(2)
        },
        true
    ));
    assert!(guard.read_allowed());
    guard.receive(&InboundMessage::Error {
        id: Some(text_id("roots")),
    });
    assert!(!guard.read_allowed());
}

fn given(hosts: &[&str]) -> Vec<String> {
    hosts.iter().map(|host| host.to_string()).collect()
}

#[test]
fn loopback_the_listen_address_and_given_hosts_are_allowed() {
    let hosts = allowed_hosts("10.0.0.5", &given(&["ida-box.local"]));
    assert_eq!(
        hosts,
        vec!["localhost", "127.0.0.1", "::1", "10.0.0.5", "ida-box.local"]
    );
    assert!(host_is_allowed("IDA-Box.local", false, &hosts));
    assert!(host_is_allowed("10.0.0.5", false, &hosts));
    assert!(!host_is_allowed("10.0.0.6", false, &hosts));
    assert!(host_is_allowed("10.0.0.6", true, &hosts));
    assert!(!host_is_allowed("", false, &hosts));
}

#[test]
fn a_star_or_an_empty_host_disables_the_check() {
    for hosts in [given(&["*"]), given(&["a", "*"]), given(&[""])] {
        let allowed = allowed_hosts("10.0.0.5", &hosts);
        assert!(allowed.is_empty());
        assert!(host_is_allowed("anything", false, &allowed));
    }
}
