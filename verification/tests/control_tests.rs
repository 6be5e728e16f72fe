use airsend::control::{json_escape_str, parse_line, peers_json, trim_line, Command};
use airsend::model::{DeviceInfo, PeerInfo};
use airsend::registry::PeerRegistry;

fn peer(id: &str, alias: &str, model: Option<&str>) -> PeerInfo {
    PeerInfo {
        id: id.to_string(),
        address: "192.168.1.7:53317".to_string(),
        protocol: "https".to_string(),
        info: DeviceInfo {
            alias: alias.to_string(),
            device_model: model.map(|m| m.to_string()),
        },
    }
}

#[test]
fn get_peers_on_empty_registry_is_an_empty_array() {
    let reg = PeerRegistry::new();
    let json = peers_json(&reg.snapshot());
    assert_eq!(json, "[]");
    // The answer is a function of the snapshot: a second call agrees.
    assert_eq!(peers_json(&reg.snapshot()), "[]");
}

#[test]
fn get_peers_field_names_are_stable() {
    let mut reg = PeerRegistry::new();
    reg.upsert(peer("one", "Mac", Some("MacBook")));
    let first = peers_json(&reg.snapshot());
    assert_eq!(
        first,
        "[{\"id\":\"one\",\"alias\":\"Mac\",\"device_model\":\"MacBook\"}]"
    );
    assert_eq!(peers_json(&reg.snapshot()), first);
    reg.upsert(peer("two", "PC", None));
    assert_eq!(
        peers_json(&reg.snapshot()),
        "[{\"id\":\"one\",\"alias\":\"Mac\",\"device_model\":\"MacBook\"},{\"id\":\"two\",\"alias\":\"PC\",\"device_model\":\"Unknown\"}]"
    );
}

#[test]
fn json_escaping_is_exact() {
    assert_eq!(json_escape_str("plain"), "plain");
    assert_eq!(json_escape_str("say \"hi\""), "say \\\"hi\\\"");
    assert_eq!(json_escape_str("back\\slash"), "back\\\\slash");
    assert_eq!(json_escape_str("line\nbreak\tand\rreturn"), "line\\nbreak\\tand\\rreturn");
    // An uncommon control character gets the four-digit escape.
    assert_eq!(json_escape_str("\u{0b}"), "\\u000b");
    assert_eq!(json_escape_str("\u{1f}"), "\\u001f");
}

#[test]
fn upsert_replaces_and_keeps_others() {
    let mut reg = PeerRegistry::new();
    reg.upsert(peer("one", "Mac", None));
    reg.upsert(peer("two", "PC", None));
    reg.upsert(peer("one", "Mac mini", None));
    assert_eq!(reg.len(), 2);
    let got = reg.get("one").expect("still present");
    assert_eq!(got.info.alias, "Mac mini");
    let other = reg.get("two").expect("untouched");
    assert_eq!(other.info.alias, "PC");
    assert!(reg.get("three").is_none());
    let first = reg.first().expect("non-empty");
    assert_eq!(first.id, "one");
}

#[test]
fn command_lines_parse_exactly() {
    assert!(matches!(parse_line("GET_PEERS"), Some(Command::GetPeers)));

    match parse_line("SEND_TEXT:hello world") {
        Some(Command::SendText { target, payload }) => {
            assert!(target.is_none());
            assert_eq!(payload, "hello world");
        },
        _ => panic!("SEND_TEXT must parse"),
    }

    match parse_line("SEND_TEXT_TO:mac:hi:there") {
        Some(Command::SendText { target, payload }) => {
            assert_eq!(target.as_deref(), Some("mac"));
            // Only the first colon splits: the payload keeps the rest.
            assert_eq!(payload, "hi:there");
        },
        _ => panic!("SEND_TEXT_TO must parse"),
    }

    match parse_line("SEND_FILE:/sdcard/DCIM/a.png") {
        Some(Command::SendFile { target, path }) => {
            assert!(target.is_none());
            assert_eq!(path, "/sdcard/DCIM/a.png");
        },
        _ => panic!("SEND_FILE must parse"),
    }

    match parse_line("SEND_FILE_TO:mac:/tmp/x.bin") {
        Some(Command::SendFile { target, path }) => {
            assert_eq!(target.as_deref(), Some("mac"));
            assert_eq!(path, "/tmp/x.bin");
        },
        _ => panic!("SEND_FILE_TO must parse"),
    }
}

#[test]
fn malformed_lines_are_ignored() {
    // A _TO verb without a second colon has no payload: ignored.
    assert!(parse_line("SEND_TEXT_TO:justanid").is_none());
    assert!(parse_line("SEND_FILE_TO:justanid").is_none());
    // Unknown verbs and noise are ignored.
    assert!(parse_line("").is_none());
    assert!(parse_line("HELLO").is_none());
    assert!(parse_line("GET_PEERS2").is_none());
    assert!(parse_line("get_peers").is_none());
    // An empty payload is still a command.
    assert!(matches!(
        parse_line("SEND_TEXT:"),
        Some(Command::SendText { target: None, .. })
    ));
}

#[test]
fn lines_are_trimmed_before_parsing() {
    assert_eq!(trim_line("  GET_PEERS\r\n"), "GET_PEERS");
    assert_eq!(trim_line("\t\n"), "");
    assert_eq!(trim_line(""), "");
    assert_eq!(trim_line("no-trim"), "no-trim");
    assert_eq!(trim_line(" inner space kept "), "inner space kept");
    let trimmed = trim_line("SEND_TEXT:payload\n");
    assert!(matches!(parse_line(&trimmed), Some(Command::SendText { .. })));
}
