use session_import::network_retry::{
    change_listener, classify_message, classify_network_interruption, classify_text, command_check,
    is_local_ollama_outage_error, is_local_ollama_outage_message, is_local_ollama_outage_text,
    is_probably_online, shell_escape, try_revive_local_ollama, wait_plan,
    wait_until_probably_online, NetworkWaitPlan, OnlineWait, Platform, ReviveStep, REVIVE_POLLS,
};
use session_import::streaming::{stream_keepalive_interval, POWER_HEARTBEAT_MILLIS};

#[test]
fn classifies_common_network_errors() {
    assert!(classify_message("connection reset by peer").is_some());
    assert!(classify_message("temporary failure in name resolution").is_some());
    assert!(classify_message("network is unreachable").is_some());
    assert!(classify_message("401 unauthorized").is_none());
}

#[test]
fn detects_local_ollama_outage_from_message() {
    // The failure as the HTTP client words it.
    let msg = "error sending request for url (http://localhost:11434/v1/chat/completions): \
               client error (Connect): tcp connect error: Connection refused (os error 61)";
    assert!(is_local_ollama_outage_message(msg));
    assert!(is_local_ollama_outage_message(
        "endpoint http://127.0.0.1:11434/v1/chat/completions Connection refused"
    ));
}

#[test]
fn ignores_non_local_or_non_refused_failures() {
    // A remote endpoint refused.
    assert!(!is_local_ollama_outage_message(
        "https://openrouter.ai/api/v1/chat/completions: Connection refused"
    ));
    // A local endpoint, but another failure.
    assert!(!is_local_ollama_outage_message(
        "http://127.0.0.1:11434/v1/chat/completions: operation timed out"
    ));
}

#[test]
fn every_marker_is_recognised_in_any_case() {
    for marker in [
        "connection reset",
        "connection aborted",
        "connection refused",
        "broken pipe",
        "network is unreachable",
        "network unreachable",
        "host is down",
        "no route to host",
        "not connected",
        "dns error",
        "failed to lookup address",
        "temporary failure in name resolution",
        "name or service not known",
        "could not resolve host",
        "couldn't resolve host",
        "host is unreachable",
        "operation timed out",
        "timed out",
        "timeout",
        "error trying to connect",
        "connection closed before message completed",
        "unexpected eof",
        "end of file before message completed",
    ] {
        let message = format!("x{}y", marker.to_uppercase());
        assert_eq!(
            classify_message(&message).as_deref(),
            Some("the network connection appears to have dropped"),
            "{marker}"
        );
    }
    assert!(classify_text("TIMEOUT").is_none());
    assert!(classify_message("").is_none());
}

#[test]
fn causes_are_looked_at() {
    let chain = vec!["request failed".to_string(), "Broken Pipe".to_string()];
    assert!(classify_network_interruption(&chain).is_some());
    assert_eq!(
        classify_network_interruption(&chain),
        classify_message("request failed | Broken Pipe")
    );
    assert!(classify_network_interruption(&vec!["bad request".to_string()]).is_none());
    assert!(classify_network_interruption(&vec![]).is_none());
    let local = vec![
        "POST http://LOCALHOST:11434/v1".to_string(),
        "Connection refused".to_string(),
    ];
    assert!(is_local_ollama_outage_error(&local));
    assert!(classify_network_interruption(&local).is_some());
    assert!(!is_local_ollama_outage_error(&vec!["Connection refused".to_string()]));
    assert!(is_local_ollama_outage_text("127.0.0.1:11434 connection refused"));
    // Nothing is read across two messages.
    assert!(classify_network_interruption(&vec!["timed".to_string(), "out".to_string()]).is_none());
    assert!(classify_network_interruption(&vec!["time".to_string(), "out".to_string()]).is_none());
}

#[test]
fn plans_for_each_platform() {
    let linux = wait_plan(Platform::Linux);
    assert_eq!(
        linux,
        NetworkWaitPlan {
            reason: "stream interrupted by a likely network disconnect".to_string(),
            listener_summary: "listening for Linux netlink changes via `ip monitor`; also verifying with reconnect probes".to_string(),
        }
    );
    assert_eq!(linux.clone(), linux);
    assert_eq!(
        wait_plan(Platform::MacOs).listener_summary,
        "listening for macOS route/interface changes via `route -n monitor`; also verifying with reconnect probes"
    );
    assert_eq!(
        wait_plan(Platform::Other).listener_summary,
        "waiting with lightweight reconnect probes"
    );
}

#[test]
fn listeners_for_each_platform() {
    let Some(ip) = change_listener(Platform::Linux) else {
        panic!("expected a listener");
    };
    assert_eq!(ip.program, "ip");
    assert_eq!(ip.args, vec!["monitor", "link", "address", "route"]);
    let Some(route) = change_listener(Platform::MacOs) else {
        panic!("expected a listener");
    };
    assert_eq!(route.program, "route");
    assert_eq!(route.args, vec!["-n", "monitor"]);
    assert!(change_listener(Platform::Other).is_none());
}

#[test]
fn escapes_quotes() {
    assert_eq!(shell_escape("ollama"), "ollama");
    assert_eq!(shell_escape("a'b'"), "a'\\''b'\\''");
    assert_eq!(command_check("ip"), "command -v ip >/dev/null 2>&1");
    assert_eq!(command_check("i'p"), "command -v i'\\''p >/dev/null 2>&1");
}

#[test]
fn revival_steps() {
    assert_eq!(try_revive_local_ollama(ReviveStep::CheckPort, true), ReviveStep::Done(true));
    assert_eq!(try_revive_local_ollama(ReviveStep::CheckPort, false), ReviveStep::FindCommand);
    assert_eq!(try_revive_local_ollama(ReviveStep::FindCommand, false), ReviveStep::Done(false));
    assert_eq!(try_revive_local_ollama(ReviveStep::FindCommand, true), ReviveStep::Spawn);
    assert_eq!(try_revive_local_ollama(ReviveStep::Spawn, false), ReviveStep::Done(false));
    let mut step = try_revive_local_ollama(ReviveStep::Spawn, true);
    let mut polls = 0;
    while let ReviveStep::Poll(made) = step {
        assert_eq!(made, polls);
        polls += 1;
        step = try_revive_local_ollama(step, false);
    }
    assert_eq!(polls, REVIVE_POLLS);
    assert_eq!(polls, 20);
    assert_eq!(step, ReviveStep::Done(false));
    assert_eq!(try_revive_local_ollama(step, true), ReviveStep::Done(false));
    assert_eq!(try_revive_local_ollama(ReviveStep::Poll(19), true), ReviveStep::Done(true));
}

#[test]
fn delays_double_up_to_half_a_minute() {
    let mut wait = OnlineWait::new();
    let mut delays = Vec::new();
    for _ in 0..7 {
        delays.push(wait_until_probably_online(&mut wait, false));
    }
    assert_eq!(
        delays,
        vec![Some(1), Some(2), Some(4), Some(8), Some(16), Some(30), Some(30)]
    );
    assert_eq!(wait_until_probably_online(&mut wait, true), None);
}

#[test]
fn only_success_is_online() {
    assert!(is_probably_online(Some(200)));
    assert!(is_probably_online(Some(204)));
    assert!(is_probably_online(Some(299)));
    assert!(!is_probably_online(Some(199)));
    assert!(!is_probably_online(Some(301)));
    assert!(!is_probably_online(None));
}

#[test]
fn intervals() {
    assert_eq!(stream_keepalive_interval(false), 30_000);
    assert_eq!(stream_keepalive_interval(true), 50);
    assert_eq!(POWER_HEARTBEAT_MILLIS, 30_000);
}
