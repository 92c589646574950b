use atmoq::router::{event_did, is_did, DidRouter, MAX_DID_TRACKS};
use ciborium::value::Value;

fn frame_bytes(t: &str, did_key: &str, did: &str) -> Vec<u8> {
    // Frames must be valid DRISL, so keys go in bytewise-encoded order ("t"
    // before "op"; payload sorted below), as real PDS encoders emit.
    let header = Value::Map(vec![
        (Value::Text("t".into()), Value::Text(t.into())),
        (Value::Text("op".into()), Value::Integer(1.into())),
    ]);
    let mut entries = vec![
        (Value::Text(did_key.into()), Value::Text(did.into())),
        (Value::Text("seq".into()), Value::Integer(42.into())),
    ];
    entries.sort_by_key(|(k, _)| {
        let mut b = Vec::new();
        ciborium::ser::into_writer(k, &mut b).unwrap();
        b
    });
    let payload = Value::Map(entries);
    let mut raw = Vec::new();
    ciborium::ser::into_writer(&header, &mut raw).unwrap();
    ciborium::ser::into_writer(&payload, &mut raw).unwrap();
    raw
}

#[test]
fn event_did_reads_repo_then_did() {
    let commit = frame_bytes("#commit", "repo", "did:plc:alice");
    assert_eq!(event_did(&commit).as_deref(), Some("did:plc:alice"));

    let identity = frame_bytes("#identity", "did", "did:plc:bob");
    assert_eq!(event_did(&identity).as_deref(), Some("did:plc:bob"));
}

#[test]
fn event_did_none_without_account() {
    let header = Value::Map(vec![(Value::Text("op".into()), Value::Integer(1.into()))]);
    let payload = Value::Map(vec![(Value::Text("seq".into()), Value::Integer(1.into()))]);
    let mut raw = Vec::new();
    ciborium::ser::into_writer(&header, &mut raw).unwrap();
    ciborium::ser::into_writer(&payload, &mut raw).unwrap();
    assert_eq!(event_did(&raw), None);
}

#[test]
fn is_did_gate() {
    assert!(is_did("did:plc:abc123"));
    assert!(is_did("did:web:example.com"));
    assert!(!is_did("all"));
    assert!(!is_did("did:")); // too short
    assert!(!is_did(""));
}

#[test]
fn is_did_bounds_are_in_bytes() {
    assert!(is_did("did:a:b"));
    assert!(!is_did("did:ab"));
    assert!(is_did(&format!("did:{}", "x".repeat(252))));
    assert!(!is_did(&format!("did:{}", "x".repeat(253))));
    assert!(is_did(&format!("did:{}", "é".repeat(126))));
    assert!(!is_did(&format!("did:{}", "é".repeat(127))));
    assert!(!is_did("DID:plc:abc"));
}

#[test]
fn repo_that_is_no_text_is_no_account() {
    // A `repo` that is there but no text does not fall back to `did`.
    let header = Value::Map(vec![(Value::Text("op".into()), Value::Integer(7.into()))]);
    let payload = Value::Map(vec![
        (Value::Text("did".into()), Value::Text("did:plc:b".into())),
        (Value::Text("repo".into()), Value::Integer(1.into())),
    ]);
    let mut raw = Vec::new();
    ciborium::ser::into_writer(&header, &mut raw).unwrap();
    ciborium::ser::into_writer(&payload, &mut raw).unwrap();
    assert_eq!(event_did(&raw), None);
    assert_eq!(event_did(b"junk"), None);
}

#[test]
fn frames_are_routed_to_their_account() {
    let alice = frame_bytes("#commit", "repo", "did:plc:alice");
    let bob = frame_bytes("#identity", "did", "did:plc:bob");
    let mut r = DidRouter::new(2, 0);
    assert!(r.is_empty());
    assert_eq!(r.route(&alice), None);
    assert_eq!(r.request("did:plc:alice".to_string()), Some(0));
    assert_eq!(r.route(&alice).as_deref(), Some("did:plc:alice"));
    assert_eq!(r.route(&bob), None);
    assert_eq!(r.route(b"junk"), None);
    assert_eq!(r.len(), 1);
}

#[test]
fn groups_of_a_track_rotate() {
    let mut r = DidRouter::new(2, 0);
    r.request("did:plc:a".to_string());
    assert!(!r.wrote("did:plc:a"));
    assert!(r.wrote("did:plc:a"));
    // The next group could not be opened: the group goes on, still full.
    assert!(r.wrote("did:plc:a"));
    r.restart_group("did:plc:a");
    assert!(!r.wrote("did:plc:a"));
    // A track that is not served is none.
    assert!(!r.wrote("did:plc:b"));
    r.restart_group("did:plc:b");
    assert_eq!(r.len(), 1);
}

#[test]
fn stale_watchers_drop_nothing() {
    let mut r = DidRouter::new(2, 0);
    let first = r.request("did:plc:a".to_string()).unwrap();
    let second = r.request("did:plc:a".to_string()).unwrap();
    assert_ne!(first, second);
    assert_eq!(r.len(), 1);
    assert!(!r.unused("did:plc:a", first));
    assert_eq!(r.len(), 1);
    assert!(r.unused("did:plc:a", second));
    assert!(r.is_empty());
    assert!(!r.unused("did:plc:a", second));
}

#[test]
fn names_that_are_no_dids_are_refused() {
    let mut r = DidRouter::new(2, 0);
    assert_eq!(r.request("all".to_string()), None);
    assert_eq!(r.request("did:".to_string()), None);
    assert!(r.is_empty());
    // No generation is spent on them.
    assert_eq!(r.request("did:plc:a".to_string()), Some(0));
}

#[test]
fn the_cap_refuses_requests() {
    let mut r = DidRouter::new(2, 2);
    assert_eq!(r.request("did:plc:a".to_string()), Some(0));
    assert_eq!(r.request("did:plc:b".to_string()), Some(1));
    assert_eq!(r.request("did:plc:c".to_string()), None);
    // A generation is spent on a refusal too, and a DID that is served already
    // is refused like any other.
    assert_eq!(r.request("did:plc:a".to_string()), None);
    assert!(r.unused("did:plc:b", 1));
    assert_eq!(r.request("did:plc:c".to_string()), Some(4));
    assert_eq!(r.len(), 2);
    assert_eq!(MAX_DID_TRACKS, 10_000);
}
