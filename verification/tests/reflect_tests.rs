use magic::config::UserCredentials;
use magic::reflect::{
    after_auth, after_connect, after_forward, classify_request, replay_payload, replay_reply,
    sweep_reply, AuthOutcome, ConnectOutcome, ForwardOutcome, ReflectRoute, ReplayOutcome,
    TargetAction, TargetReport,
};

fn record_of(act: TargetAction) -> TargetReport {
    match act {
        TargetAction::Record { report } => report,
        _ => panic!("expected Record"),
    }
}

#[test]
fn send_to_routes_to_replay() {
    match classify_request("SEND TO 127.0.0.1:8080") {
        ReflectRoute::Replay { addr } => assert_eq!(addr, "127.0.0.1:8080"),
        _ => panic!("expected Replay"),
    }
    match classify_request("  send to backend  ") {
        ReflectRoute::Replay { addr } => assert_eq!(addr, "backend"),
        _ => panic!("expected Replay"),
    }
}

#[test]
fn other_requests_fan_out() {
    assert!(matches!(classify_request("CONJURE wand"), ReflectRoute::FanOut));
    assert!(matches!(classify_request("send tonowhere"), ReflectRoute::FanOut));
    assert!(matches!(classify_request(""), ReflectRoute::FanOut));
}

#[test]
fn unreachable_target_records_connection_error() {
    let act = after_connect(
        &"A".to_string(),
        None,
        ConnectOutcome::Failed { detail: "refused".to_string() },
    );
    let report = record_of(act);
    assert_eq!(report.segment, "Connection error to A: refused");
    assert!(report.response.is_none());
}

#[test]
fn reached_target_with_credentials_gets_auth_line() {
    let creds = UserCredentials { username: "u".to_string(), password: "p".to_string() };
    match after_connect(&"A".to_string(), Some(&creds), ConnectOutcome::Opened) {
        TargetAction::Auth { line } => assert_eq!(line, "AUTH u p\n"),
        _ => panic!("expected Auth"),
    }
}

#[test]
fn reached_target_without_credentials_is_forwarded() {
    assert!(matches!(
        after_connect(&"A".to_string(), None, ConnectOutcome::Opened),
        TargetAction::Forward
    ));
}

#[test]
fn accepted_auth_reply_forwards_the_payload() {
    assert!(matches!(
        after_auth(&"T".to_string(), AuthOutcome::Reply { text: "AUTH OK\n".to_string() }),
        TargetAction::Forward
    ));
}

#[test]
fn rejected_auth_never_forwards_the_payload() {
    let act = after_auth(&"T".to_string(), AuthOutcome::Reply { text: "DENIED".to_string() });
    let report = record_of(act);
    assert_eq!(report.segment, "Authentication rejected for T");
    assert!(report.response.is_none());

    let act = after_auth(&"T".to_string(), AuthOutcome::ReadFailed);
    assert_eq!(record_of(act).segment, "Authentication rejected for T");

    let act = after_auth(&"T".to_string(), AuthOutcome::WriteFailed);
    assert_eq!(record_of(act).segment, "Authentication failed for T");
}

#[test]
fn forward_outcomes_are_recorded() {
    let act = after_forward(ForwardOutcome::Response { data: "pong".to_string() });
    let report = record_of(act);
    assert_eq!(report.segment, "pong");
    assert_eq!(report.response, Some("pong".to_string()));

    let act = after_forward(ForwardOutcome::WriteFailed { detail: "broken pipe".to_string() });
    let report = record_of(act);
    assert_eq!(report.segment, "Connection error: broken pipe");
    assert!(report.response.is_none());

    let act = after_forward(ForwardOutcome::ReadFailed { detail: "reset".to_string() });
    assert_eq!(record_of(act).segment, "Connection error: reset");
}

#[test]
fn sweep_always_yields_one_segment_per_target() {
    let reports = vec![
        TargetReport { segment: "alpha".to_string(), response: Some("alpha".to_string()) },
        TargetReport { segment: "Connection error to B: refused".to_string(), response: None },
        TargetReport { segment: "gamma".to_string(), response: Some("gamma".to_string()) },
    ];
    let mut slot: Option<String> = None;
    let reply = sweep_reply(&reports, &mut slot);
    assert_eq!(
        reply,
        "alpha\n---\nConnection error to B: refused\n---\ngamma"
    );
    assert_eq!(reply.matches("\n---\n").count(), 2);
    assert_eq!(slot, Some("gamma".to_string()));
}

#[test]
fn sweep_without_success_leaves_the_slot_alone() {
    let reports = vec![
        TargetReport { segment: "Connection error to A: down".to_string(), response: None },
        TargetReport { segment: "Connection error to B: down".to_string(), response: None },
    ];
    let mut slot: Option<String> = Some("earlier".to_string());
    let reply = sweep_reply(&reports, &mut slot);
    assert_eq!(reply, "Connection error to A: down\n---\nConnection error to B: down");
    assert_eq!(slot, Some("earlier".to_string()));
}

#[test]
fn empty_target_list_gives_empty_aggregate() {
    let reports: Vec<TargetReport> = Vec::new();
    let mut slot: Option<String> = None;
    let reply = sweep_reply(&reports, &mut slot);
    assert_eq!(reply, "");
    assert_eq!(slot, None);
}

#[test]
fn sweep_scenario_one_unreachable_one_answering() {
    // targets = ["A", "B"]; A unreachable, B replies "pong"
    let a = record_of(after_connect(
        &"A".to_string(),
        None,
        ConnectOutcome::Failed { detail: "connection refused".to_string() },
    ));
    let b = match after_connect(&"B".to_string(), None, ConnectOutcome::Opened) {
        TargetAction::Forward => {
            record_of(after_forward(ForwardOutcome::Response { data: "pong".to_string() }))
        }
        _ => panic!("expected Forward"),
    };
    let reports = vec![a, b];
    let mut slot: Option<String> = None;
    let reply = sweep_reply(&reports, &mut slot);
    assert_eq!(reply, "Connection error to A: connection refused\n---\npong");
    assert_eq!(slot, Some("pong".to_string()));
}

#[test]
fn replay_delivers_the_cached_bytes() {
    let slot = Some("last response".to_string());
    assert_eq!(replay_payload(&slot), "last response");
}

#[test]
fn replay_without_data_sends_the_sentinel() {
    let slot: Option<String> = None;
    assert_eq!(replay_payload(&slot), "No data available");
}

#[test]
fn replay_replies_report_the_single_send() {
    let addr = "10.0.0.1:9000".to_string();
    assert_eq!(replay_reply(&addr, ReplayOutcome::Sent), "Data sent to 10.0.0.1:9000");
    assert_eq!(
        replay_reply(&addr, ReplayOutcome::SendFailed),
        "Failed to send data to 10.0.0.1:9000"
    );
    assert_eq!(
        replay_reply(&addr, ReplayOutcome::ConnectFailed { detail: "timed out".to_string() }),
        "Connection error to 10.0.0.1:9000: timed out"
    );
}
