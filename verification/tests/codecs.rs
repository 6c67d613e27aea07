use lox_linein_bridge::config::{emit_config, parse_config, preferred_config_path, Config};
use lox_linein_bridge::health::{emit_health, HealthSnapshot};
use lox_linein_bridge::models::{
    emit_register, emit_status, hash_capture_devices, parse_register, parse_response,
    BridgeRegisterRequest, BridgeStatusRequest, CaptureDeviceInfo,
};

fn sample_register() -> BridgeRegisterRequest {
    BridgeRegisterRequest {
        bridge_id: "0c5b1e9e".to_string(),
        hostname: "edge-01".to_string(),
        version: "0.1.0".to_string(),
        ip: "192.168.1.20".to_string(),
        mac: "aa:bb:cc:dd:ee:ff".to_string(),
        capture_devices: vec![
            CaptureDeviceInfo {
                id: "hw:0".to_string(),
                name: "Line In".to_string(),
                channels: 2,
                sample_rates: vec![44100, 48000],
            },
            CaptureDeviceInfo {
                id: "hw:1".to_string(),
                name: "Mic \"front\"".to_string(),
                channels: 1,
                sample_rates: vec![],
            },
        ],
    }
}

#[test]
fn config_round_trip() {
    let c = Config {
        bridge_id: "6f1d2a3b-1111-2222-3333-444455556666".to_string(),
        preferred_server_name: Some("living room".to_string()),
        preferred_server_mac: Some("aa:bb:cc:dd:ee:ff".to_string()),
    };
    let bytes = emit_config(&c);
    let back = parse_config(&bytes).expect("parse back");
    assert_eq!(back, c);
}

#[test]
fn config_round_trip_without_preferences() {
    let c = Config {
        bridge_id: "id-1".to_string(),
        preferred_server_name: None,
        preferred_server_mac: None,
    };
    let back = parse_config(&emit_config(&c)).expect("parse back");
    assert_eq!(back, c);
}

#[test]
fn config_round_trip_with_escapes() {
    let c = Config {
        bridge_id: "id".to_string(),
        preferred_server_name: Some("name with \"quotes\" and \\slash\n".to_string()),
        preferred_server_mac: None,
    };
    let back = parse_config(&emit_config(&c)).expect("parse back");
    assert_eq!(back, c);
}

#[test]
fn config_parse_tolerates_comments_and_unknown_keys() {
    let text = "# identity\n\nbridge_id = \"abc\"\nother_key = \"zzz\"\npreferred_server_mac = \"m\"  # trailing\n";
    let parsed = parse_config(&text.as_bytes().to_vec()).expect("parse");
    assert_eq!(parsed.bridge_id, "abc");
    assert_eq!(parsed.preferred_server_name, None);
    assert_eq!(parsed.preferred_server_mac, Some("m".to_string()));
}

#[test]
fn config_parse_requires_bridge_id() {
    let text = "preferred_server_name = \"x\"\n";
    assert!(parse_config(&text.as_bytes().to_vec()).is_none());
}

#[test]
fn config_emit_is_valid_toml() {
    let c = Config {
        bridge_id: "abc".to_string(),
        preferred_server_name: Some("a \"b\"".to_string()),
        preferred_server_mac: Some("mac".to_string()),
    };
    let text = String::from_utf8(emit_config(&c)).expect("utf8");
    let value: toml::Value = toml::from_str(&text).expect("well-formed toml");
    assert_eq!(value["bridge_id"].as_str(), Some("abc"));
    assert_eq!(value["preferred_server_name"].as_str(), Some("a \"b\""));
}

#[test]
fn config_path_is_fixed() {
    assert_eq!(
        preferred_config_path(),
        "/etc/lox-linein-bridge/config.toml"
    );
}

#[test]
fn register_round_trip() {
    let r = sample_register();
    let bytes = emit_register(&r);
    let back = parse_register(&bytes).expect("parse back");
    assert_eq!(back, r);
}

#[test]
fn register_emit_is_valid_json() {
    let r = sample_register();
    let bytes = emit_register(&r);
    let v: serde_json::Value = serde_json::from_slice(&bytes).expect("well-formed json");
    assert_eq!(v["bridge_id"].as_str(), Some("0c5b1e9e"));
    assert_eq!(v["hostname"].as_str(), Some("edge-01"));
    assert_eq!(v["capture_devices"][0]["channels"].as_u64(), Some(2));
    assert_eq!(
        v["capture_devices"][0]["sample_rates"][1].as_u64(),
        Some(48000)
    );
    assert_eq!(
        v["capture_devices"][1]["name"].as_str(),
        Some("Mic \"front\"")
    );
}

#[test]
fn status_emit_is_valid_json() {
    let s = BridgeStatusRequest {
        state: "STREAMING".to_string(),
        device: Some("hw:0".to_string()),
        rate: Some(48000),
        channels: Some(2),
        format: None,
        rms_centidb: Some(-4550),
        last_error: None,
        track_change: Some(true),
        capture_devices: None,
    };
    let bytes = emit_status(&s);
    let v: serde_json::Value = serde_json::from_slice(&bytes).expect("well-formed json");
    assert_eq!(v["state"].as_str(), Some("STREAMING"));
    assert_eq!(v["device"].as_str(), Some("hw:0"));
    assert!(v["format"].is_null());
    assert_eq!(v["rms_db"].as_f64(), Some(-45.5));
    assert_eq!(v["track_change"].as_bool(), Some(true));
    assert!(v.get("capture_devices").is_none());
}

#[test]
fn status_emit_omits_unset_track_change() {
    let s = BridgeStatusRequest {
        state: "IDLE".to_string(),
        device: None,
        rate: None,
        channels: None,
        format: None,
        rms_centidb: None,
        last_error: Some("boom".to_string()),
        track_change: None,
        capture_devices: Some(vec![CaptureDeviceInfo {
            id: "hw:0".to_string(),
            name: "Line".to_string(),
            channels: 2,
            sample_rates: vec![48000],
        }]),
    };
    let bytes = emit_status(&s);
    let v: serde_json::Value = serde_json::from_slice(&bytes).expect("well-formed json");
    assert!(v.get("track_change").is_none());
    assert!(v["device"].is_null());
    assert_eq!(v["rms_db"], serde_json::Value::Null);
    assert_eq!(v["last_error"].as_str(), Some("boom"));
    assert_eq!(v["capture_devices"][0]["id"].as_str(), Some("hw:0"));
}

#[test]
fn response_parse_reads_every_field() {
    let body = r#" {
        "assigned_input_id": "in-7",
        "ingest_ws_url": null,
        "ingest_tcp_host": "10.0.0.2",
        "ingest_tcp_port": 4010,
        "capture_device": "hw:0",
        "vad_threshold_db": -45.5,
        "vad_hold_ms": 2000,
        "ingest_sample_rate": 48000,
        "ingest_resampler": "sinc-fast",
        "future_field": "ignored"
    } "#;
    let r = parse_response(&body.as_bytes().to_vec()).expect("parse");
    assert_eq!(r.assigned_input_id, Some("in-7".to_string()));
    assert_eq!(r.ingest_ws_url, None);
    assert_eq!(r.ingest_tcp_host, Some("10.0.0.2".to_string()));
    assert_eq!(r.ingest_tcp_port, Some(4010));
    assert_eq!(r.capture_device, Some("hw:0".to_string()));
    assert_eq!(r.vad_threshold_centidb, Some(-4550));
    assert_eq!(r.vad_hold_ms, Some(2000));
    assert_eq!(r.ingest_sample_rate, Some(48000));
    assert_eq!(r.ingest_resampler, Some("sinc-fast".to_string()));
}

#[test]
fn response_parse_handles_integer_threshold_and_empty_object() {
    let r = parse_response(&br#"{"vad_threshold_db": -30}"#.to_vec()).expect("parse");
    assert_eq!(r.vad_threshold_centidb, Some(-3000));
    let e = parse_response(&b"{}".to_vec()).expect("parse");
    assert_eq!(e.assigned_input_id, None);
    assert_eq!(e.ingest_tcp_port, None);
}

#[test]
fn response_parse_refuses_malformed_bodies() {
    assert!(parse_response(&b"".to_vec()).is_none());
    assert!(parse_response(&b"[]".to_vec()).is_none());
    assert!(parse_response(&br#"{"ingest_tcp_port": 70000}"#.to_vec()).is_none());
    assert!(parse_response(&br#"{"assigned_input_id": }"#.to_vec()).is_none());
}

#[test]
fn health_emit_is_valid_pretty_json() {
    let h = HealthSnapshot {
        ts: "2024-05-01T10:00:00Z".to_string(),
        state: "STREAMING".to_string(),
        device: "hw:0".to_string(),
        ingest: "10.0.0.2:4010".to_string(),
        last_error: None,
        bytes_sent_total: 123456,
        last_chunk_ts: Some("2024-05-01T10:00:05Z".to_string()),
    };
    let bytes = emit_health(&h);
    let text = String::from_utf8(bytes).expect("utf8");
    assert!(text.contains("\n  \"state\": \"STREAMING\""));
    let v: serde_json::Value = serde_json::from_str(&text).expect("well-formed json");
    assert_eq!(v["ts"].as_str(), Some("2024-05-01T10:00:00Z"));
    assert!(v["last_error"].is_null());
    assert_eq!(v["bytes_sent_total"].as_u64(), Some(123456));
}

#[test]
fn device_hash_tracks_content() {
    let a = vec![CaptureDeviceInfo {
        id: "hw:0".to_string(),
        name: "Line".to_string(),
        channels: 2,
        sample_rates: vec![44100, 48000],
    }];
    let b = vec![CaptureDeviceInfo {
        id: "hw:0".to_string(),
        name: "Line".to_string(),
        channels: 2,
        sample_rates: vec![44100, 48000],
    }];
    let c = vec![CaptureDeviceInfo {
        id: "hw:0".to_string(),
        name: "Line".to_string(),
        channels: 2,
        sample_rates: vec![44100, 48001],
    }];
    assert_eq!(hash_capture_devices(&a), hash_capture_devices(&b));
    assert_ne!(hash_capture_devices(&a), hash_capture_devices(&c));
    assert_ne!(hash_capture_devices(&a), hash_capture_devices(&vec![]));
}

#[test]
fn config_round_trip_with_control_character() {
    let c = Config {
        bridge_id: "id".to_string(),
        preferred_server_name: Some("a\u{1}b\u{7}c".to_string()),
        preferred_server_mac: None,
    };
    let bytes = emit_config(&c);
    let text = String::from_utf8(bytes.clone()).expect("utf8");
    assert!(text.contains("\\u0001"));
    let back = parse_config(&bytes).expect("parse back");
    assert_eq!(back, c);
}

#[test]
fn config_parse_refuses_invalid_utf8_values() {
    let mut bytes = b"bridge_id = \"".to_vec();
    bytes.push(0xFF);
    bytes.extend_from_slice(b"\"\n");
    assert!(parse_config(&bytes).is_none());
}
