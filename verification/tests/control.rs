use lox_linein_bridge::audio::{device_info_from_configs, ResamplerMode, TARGET_CHANNELS};
use lox_linein_bridge::cli::parse_args;
use lox_linein_bridge::discovery::{
    build_server, normalize_path, resolve_host, select_server, txt_lookup, DiscoveredServer,
};
use lox_linein_bridge::install::systemd_unit;
use lox_linein_bridge::models::BridgeConfigResponse;
use lox_linein_bridge::runtime::{parse_resampler, RuntimeConfig};
use lox_linein_bridge::stream::IngestTarget;
use lox_linein_bridge::text::u64_to_dec_string;

fn empty_response() -> BridgeConfigResponse {
    BridgeConfigResponse {
        assigned_input_id: None,
        ingest_ws_url: None,
        ingest_tcp_host: None,
        ingest_tcp_port: None,
        capture_device: None,
        vad_threshold_centidb: None,
        vad_hold_ms: None,
        ingest_sample_rate: None,
        ingest_resampler: None,
    }
}

fn ready_response() -> BridgeConfigResponse {
    BridgeConfigResponse {
        assigned_input_id: Some("in-1".to_string()),
        ingest_ws_url: None,
        ingest_tcp_host: Some("10.0.0.2".to_string()),
        ingest_tcp_port: Some(4010),
        capture_device: Some("hw:0".to_string()),
        vad_threshold_centidb: Some(-4500),
        vad_hold_ms: Some(2000),
        ingest_sample_rate: Some(48000),
        ingest_resampler: Some("linear".to_string()),
    }
}

#[test]
fn resampler_parse_accepts_known_spellings() {
    assert_eq!(ResamplerMode::parse("linear"), Some(ResamplerMode::Linear));
    assert_eq!(ResamplerMode::parse("BASIC"), Some(ResamplerMode::Linear));
    assert_eq!(
        ResamplerMode::parse("  Sinc-Fast\t"),
        Some(ResamplerMode::SincFast)
    );
    assert_eq!(ResamplerMode::parse("medium"), Some(ResamplerMode::SincFast));
    assert_eq!(ResamplerMode::parse("hq"), Some(ResamplerMode::SincQuality));
    assert_eq!(
        ResamplerMode::parse("rubato"),
        Some(ResamplerMode::SincQuality)
    );
    assert_eq!(ResamplerMode::parse("what"), None);
    assert_eq!(ResamplerMode::parse(""), None);
}

#[test]
fn resampler_labels() {
    assert_eq!(ResamplerMode::Linear.label(), "linear");
    assert_eq!(ResamplerMode::SincFast.label(), "sinc-fast");
    assert_eq!(ResamplerMode::SincQuality.label(), "sinc");
}

#[test]
fn parse_resampler_defaults_to_quality() {
    assert_eq!(parse_resampler(None), ResamplerMode::SincQuality);
    assert_eq!(parse_resampler(Some("junk")), ResamplerMode::SincQuality);
    assert_eq!(parse_resampler(Some("fast")), ResamplerMode::SincFast);
}

#[test]
fn runtime_defaults_from_empty_response() {
    let c = RuntimeConfig::from_response(empty_response());
    assert_eq!(c.vad_threshold_centidb, -4500);
    assert_eq!(c.vad_hold_ms, 2000);
    assert_eq!(c.target_rate, 48000);
    assert_eq!(c.resampler, ResamplerMode::SincQuality);
    assert!(!c.is_ready());
    assert!(c.ingest_target().is_none());
    assert_eq!(c.ingest_label(), "unassigned");
}

#[test]
fn runtime_ready_and_tcp_target() {
    let c = RuntimeConfig::from_response(ready_response());
    assert!(c.is_ready());
    assert_eq!(c.ingest_label(), "10.0.0.2:4010");
    match c.ingest_target() {
        Some(IngestTarget::Tcp { host, port, header }) => {
            assert_eq!(host, "10.0.0.2");
            assert_eq!(port, 4010);
            assert_eq!(header, "in-1");
        }
        other => panic!("expected a tcp target, got {:?}", other),
    }
}

#[test]
fn websocket_preferred_over_tcp() {
    let mut r = ready_response();
    r.ingest_ws_url = Some("ws://10.0.0.2:9000/ingest".to_string());
    let c = RuntimeConfig::from_response(r);
    assert_eq!(c.ingest_label(), "ws://10.0.0.2:9000/ingest");
    match c.ingest_target() {
        Some(IngestTarget::Ws { url }) => assert_eq!(url, "ws://10.0.0.2:9000/ingest"),
        other => panic!("expected a websocket target, got {:?}", other),
    }
}

#[test]
fn vad_only_update_keeps_stream_key() {
    let mut c = RuntimeConfig::from_response(ready_response());
    let key = c.stream_key();
    let mut upd = ready_response();
    upd.vad_threshold_centidb = Some(-3000);
    upd.vad_hold_ms = Some(1500);
    let changed = c.update(upd);
    assert!(changed.is_some());
    assert_eq!(c.vad_threshold_centidb, -3000);
    assert_eq!(c.vad_hold_ms, 1500);
    assert_eq!(c.stream_key(), key);
}

#[test]
fn routed_update_changes_stream_key() {
    let mut c = RuntimeConfig::from_response(ready_response());
    let key = c.stream_key();
    let mut upd = ready_response();
    upd.capture_device = Some("hw:1".to_string());
    assert!(c.update(upd).is_some());
    assert_ne!(c.stream_key(), key);
    // a byte-identical reply changes nothing
    let key2 = c.stream_key();
    let mut upd2 = ready_response();
    upd2.capture_device = Some("hw:1".to_string());
    assert!(c.update(upd2).is_none());
    assert_eq!(c.stream_key(), key2);
}

#[test]
fn device_info_gathers_rates_and_channels() {
    let configs = vec![(2u16, 44100u32, 48000u32), (1, 8000, 8000), (2, 48000, 96000)];
    let d = device_info_from_configs("hw:0".to_string(), &configs);
    assert_eq!(d.id, "hw:0");
    assert_eq!(d.name, "hw:0");
    assert_eq!(d.channels, 2);
    assert_eq!(d.sample_rates, vec![8000, 44100, 48000, 96000]);
    assert_eq!(TARGET_CHANNELS, 2);
}

#[test]
fn discovery_paths_and_defaults() {
    let s = build_server("192.168.1.5", 8091, vec![]);
    assert_eq!(s.base_url, "http://192.168.1.5:8091");
    assert_eq!(s.register_path, "/api/linein/bridges/register");
    assert_eq!(s.status_path, "/api/linein/bridges/{bridge_id}/status");

    let txt = vec![
        ("api".to_string(), "/v2".to_string()),
        ("linein_register".to_string(), "custom/register".to_string()),
    ];
    let s2 = build_server("host", 80, txt);
    assert_eq!(s2.register_path, "/custom/register");
    assert_eq!(s2.status_path, "/v2/linein/bridges/{bridge_id}/status");
    assert_eq!(
        txt_lookup(&s2.txt, "api"),
        Some("/v2".to_string())
    );
}

#[test]
fn discovery_selection_prefers_mac_then_name() {
    let mk = |name: &str, mac: &str| DiscoveredServer {
        base_url: format!("http://{}", name),
        register_path: "/r".to_string(),
        status_path: "/s".to_string(),
        txt: vec![
            ("name".to_string(), name.to_string()),
            ("mac".to_string(), mac.to_string()),
        ],
    };
    let cands = vec![mk("a", "m1"), mk("b", "m2"), mk("c", "m3")];
    let by_mac = select_server(cands, Some("c"), Some("m2")).expect("pick");
    assert_eq!(by_mac.base_url, "http://b");

    let cands2 = vec![mk("a", "m1"), mk("b", "m2")];
    let by_name = select_server(cands2, Some("b"), None).expect("pick");
    assert_eq!(by_name.base_url, "http://b");

    let cands3 = vec![mk("a", "m1"), mk("b", "m2")];
    let first = select_server(cands3, Some("zzz"), Some("zzz")).expect("pick");
    assert_eq!(first.base_url, "http://a");

    assert!(select_server(vec![], Some("x"), None).is_none());
    let single = vec![mk("only", "m")];
    assert_eq!(
        select_server(single, Some("other"), Some("other"))
            .expect("pick")
            .base_url,
        "http://only"
    );
}

#[test]
fn host_resolution_and_path_normalization() {
    assert_eq!(
        resolve_host(Some("10.0.0.9".to_string()), "ignored."),
        "10.0.0.9"
    );
    assert_eq!(resolve_host(None, "server.local."), "server.local");
    assert_eq!(resolve_host(None, "plain"), "plain");
    assert_eq!(normalize_path("api".to_string()), "/api");
    assert_eq!(normalize_path("/api".to_string()), "/api");
    assert_eq!(normalize_path("".to_string()), "/");
}

#[test]
fn argument_parsing() {
    let args = |v: &[&str]| v.iter().map(|s| s.to_string()).collect::<Vec<String>>();
    assert_eq!(
        parse_args(&args(&["run"])),
        Some((Some("run".to_string()), None))
    );
    assert_eq!(
        parse_args(&args(&["--log-level", "info", "install"])),
        Some((Some("install".to_string()), Some("info".to_string())))
    );
    assert_eq!(
        parse_args(&args(&["--log-level=debug", "run"])),
        Some((Some("run".to_string()), Some("debug".to_string())))
    );
    assert_eq!(parse_args(&args(&[])), Some((None, None)));
    // a first free argument wins; later ones are ignored
    assert_eq!(
        parse_args(&args(&["run", "extra"])),
        Some((Some("run".to_string()), None))
    );
    // a dangling --log-level refuses the command line
    assert_eq!(parse_args(&args(&["--log-level"])), None);
}

#[test]
fn systemd_unit_text() {
    let unit = systemd_unit();
    assert!(unit.starts_with("[Unit]\n"));
    assert!(unit.contains("ExecStart=/usr/local/bin/lox-linein-bridge run\n"));
    assert!(unit.contains("Restart=always\n"));
    assert!(unit.ends_with("WantedBy=multi-user.target\n"));
}

#[test]
fn decimal_rendering() {
    assert_eq!(u64_to_dec_string(0), "0");
    assert_eq!(u64_to_dec_string(48000), "48000");
    assert_eq!(u64_to_dec_string(u64::MAX), "18446744073709551615");
}
