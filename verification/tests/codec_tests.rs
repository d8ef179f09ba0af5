use envmesh::codec::{deserialize_sync_message, serialize_sync_message};
use envmesh::message::SyncMessage;

fn msg(key: &str, value: &str, timestamp: i64, machine_id: &str, deleted: bool) -> SyncMessage {
    SyncMessage {
        key: key.to_string(),
        value: value.to_string(),
        timestamp,
        machine_id: machine_id.to_string(),
        deleted,
    }
}

fn assert_round_trip(m: &SyncMessage) {
    let text = serialize_sync_message(m);
    let back = deserialize_sync_message(&text).expect("frame must parse");
    assert_eq!(back.key, m.key);
    assert_eq!(back.value, m.value);
    assert_eq!(back.timestamp, m.timestamp);
    assert_eq!(back.machine_id, m.machine_id);
    assert_eq!(back.deleted, m.deleted);
}

#[test]
fn test_sync_message_serialization() {
    let msg = SyncMessage {
        key: "TEST_KEY".to_string(),
        value: "test_value".to_string(),
        timestamp: 1234567890,
        machine_id: "machine-1".to_string(),
        deleted: false,
    };

    let json = serialize_sync_message(&msg);
    let deserialized: SyncMessage = deserialize_sync_message(&json).unwrap();

    assert_eq!(msg.key, deserialized.key);
    assert_eq!(msg.value, deserialized.value);
}

#[test]
fn exact_frame_text() {
    let m = msg("PATH", "/usr/bin", 42, "m1", false);
    let text = serialize_sync_message(&m);
    assert_eq!(
        text,
        "{\"key\":\"PATH\",\"value\":\"/usr/bin\",\"timestamp\":42,\"machine_id\":\"m1\",\"deleted\":false}"
    );
}

#[test]
fn round_trips_with_escapes_and_extremes() {
    assert_round_trip(&msg("", "", 0, "", false));
    assert_round_trip(&msg("quote\"back\\slash", "line\nbreak\ttab\rret", -7, "m", true));
    assert_round_trip(&msg("ctl\u{01}\u{1f}", "bell\u{07}", i64::MIN, "m", false));
    assert_round_trip(&msg("unicode-\u{30c6}\u{30b9}\u{30c8}", "emoji \u{1f600}", i64::MAX, "m-\u{e9}", true));
}

#[test]
fn parses_handwritten_frames() {
    let text = "{\"key\":\"K\",\"value\":\"a\\u0007b\\/c\\bd\\fe\",\"timestamp\":-12,\"machine_id\":\"w\",\"deleted\":true}";
    let m = deserialize_sync_message(text).unwrap();
    assert_eq!(m.key, "K");
    assert_eq!(m.value, "a\u{07}b/c\u{08}d\u{0c}e");
    assert_eq!(m.timestamp, -12);
    assert!(m.deleted);
}

#[test]
fn rejects_malformed_frames() {
    assert!(deserialize_sync_message("").is_none());
    assert!(deserialize_sync_message("{}").is_none());
    assert!(deserialize_sync_message("{\"key\":\"K\"}").is_none());
    // truncated
    assert!(deserialize_sync_message("{\"key\":\"K\",\"value\":\"v\",\"timestamp\":1").is_none());
    // trailing garbage
    assert!(deserialize_sync_message(
        "{\"key\":\"K\",\"value\":\"v\",\"timestamp\":1,\"machine_id\":\"m\",\"deleted\":false}x"
    )
    .is_none());
    // no digits where the timestamp belongs
    assert!(deserialize_sync_message(
        "{\"key\":\"K\",\"value\":\"v\",\"timestamp\":x,\"machine_id\":\"m\",\"deleted\":false}"
    )
    .is_none());
    // out of range for a 64-bit timestamp
    assert!(deserialize_sync_message(
        "{\"key\":\"K\",\"value\":\"v\",\"timestamp\":9223372036854775808,\"machine_id\":\"m\",\"deleted\":false}"
    )
    .is_none());
}

#[test]
fn wire_decode_reports_serialization_error() {
    let err = envmesh::codec::decode_wire_text("not a frame").unwrap_err();
    assert!(matches!(err, envmesh::MeshError::Serialization));
}

#[test]
fn serde_json_reads_our_frames() {
    let m = msg("K Y", "va\"lue\nwith\\stuff", -1234567890123, "m\u{30c6}", true);
    let text = serialize_sync_message(&m);
    let parsed: serde_json::Value = serde_json::from_str(&text).unwrap();
    assert_eq!(parsed.get("key").unwrap().as_str().unwrap(), m.key);
    assert_eq!(parsed.get("value").unwrap().as_str().unwrap(), m.value);
    assert_eq!(parsed.get("timestamp").unwrap().as_i64().unwrap(), m.timestamp);
    assert_eq!(parsed.get("machine_id").unwrap().as_str().unwrap(), m.machine_id);
    assert_eq!(parsed.get("deleted").unwrap().as_bool().unwrap(), m.deleted);
}

#[test]
fn we_read_serde_json_escaping() {
    // splice a serde_json-escaped string into a frame: its escapes
    // (short forms and \u00XX) must decode to the same value
    let val = "a\"b\\c\nd\u{8}e\u{c}f\u{1f}g/h";
    let vjson = serde_json::to_string(&serde_json::Value::String(val.to_string())).unwrap();
    let text = format!(
        "{{\"key\":\"K\",\"value\":{},\"timestamp\":5,\"machine_id\":\"m\",\"deleted\":false}}",
        vjson
    );
    let m = deserialize_sync_message(&text).unwrap();
    assert_eq!(m.value, val);
}
