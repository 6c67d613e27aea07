use lox_linein_bridge::audio::{frame_chunk, pcm_sum_squares, RateDecision, RateObserver};
use lox_linein_bridge::backoff::Backoff;
use lox_linein_bridge::stream::{StatusState, StreamSession};

#[test]
fn backoff_sequence_and_reset() {
    let mut b = Backoff::new();
    let mut seen: Vec<u64> = Vec::new();
    for _ in 0..7 {
        seen.push(b.next_delay());
    }
    assert_eq!(seen, vec![1, 2, 4, 8, 16, 30, 30]);
    b.reset();
    assert_eq!(b.next_delay(), 1);
    assert_eq!(b.next_delay(), 2);
}

#[test]
fn gate_opens_on_loud_chunk_and_sustains() {
    let mut status = StatusState::new("dev", "ingest");
    let mut s = StreamSession::new(-4500, 2000, 0);
    // loud chunk opens the detector
    assert!(s.on_chunk(&mut status, Some(-3000), 1000));
    assert!(s.gate.active);
    // quiet chunk within the hold window sustains it
    assert!(s.on_chunk(&mut status, Some(-9000), 2500));
    assert!(s.gate.active);
    // quiet chunk after the hold window closes it
    assert!(!s.on_chunk(&mut status, Some(-9000), 4000));
    assert!(!s.gate.active);
    assert_eq!(status.state, "IDLE");
}

#[test]
fn gate_idempotent_on_repeated_loud_chunks() {
    let mut status = StatusState::new("", "");
    let mut s = StreamSession::new(-4500, 2000, 0);
    // set up a consumed silence gap: active, then idle long enough
    s.on_chunk(&mut status, Some(-3000), 0);
    s.on_chunk(&mut status, Some(-9900), 3000);
    assert!(!s.gate.active);
    // first loud chunk after the gap raises the flag
    s.on_chunk(&mut status, Some(-3000), 6000);
    assert!(s.gate.active);
    assert!(status.track_change);
    let st = status.bridge_status();
    assert_eq!(st.track_change, Some(true));
    // the same chunk again raises nothing new
    s.on_chunk(&mut status, Some(-3000), 6100);
    assert!(s.gate.active);
    assert!(!status.track_change);
    let st2 = status.bridge_status();
    assert_eq!(st2.track_change, None);
}

#[test]
fn track_change_needs_long_gap() {
    let mut status = StatusState::new("", "");
    let mut s = StreamSession::new(-4500, 2000, 0);
    s.on_chunk(&mut status, Some(-3000), 0);
    // falling edge records the idle start
    s.on_chunk(&mut status, Some(-9900), 2500);
    assert!(!s.gate.active);
    // gap under two seconds: no track change
    s.on_chunk(&mut status, Some(-3000), 4000);
    assert!(s.gate.active);
    assert!(!status.track_change);
}

#[test]
fn vad_rising_edge_scenario() {
    // an active phase, then three seconds of deep silence, then one loud
    // chunk with the default threshold
    let mut status = StatusState::new("", "");
    let mut s = StreamSession::new(-4500, 2000, 0);
    s.on_chunk(&mut status, Some(-3000), 0);
    let mut t = 2100u64;
    while t <= 5100 {
        s.on_chunk(&mut status, Some(-10000), t);
        t += 500;
    }
    assert!(!s.gate.active);
    s.on_chunk(&mut status, Some(-3000), 5600);
    assert!(s.gate.active);
    let st = status.bridge_status();
    assert_eq!(st.track_change, Some(true));
    let st2 = status.bridge_status();
    assert_eq!(st2.track_change, None);
}

#[test]
fn hot_vad_update_keeps_gate() {
    let mut status = StatusState::new("", "");
    let mut s = StreamSession::new(-4500, 2000, 0);
    s.on_chunk(&mut status, Some(-3000), 0);
    let gate_before = (s.gate.active, s.gate.last_active);
    s.set_vad_params(-3000, 2000);
    assert_eq!((s.gate.active, s.gate.last_active), gate_before);
    // a -35 dBFS chunk passed the old threshold but not the new one; after
    // the hold window it closes the detector
    assert!(!s.on_chunk(&mut status, Some(-3500), 9000));
}

#[test]
fn transport_reconnect_keeps_byte_total() {
    let mut status = StatusState::new("dev", "host:4000");
    let mut s = StreamSession::new(-4500, 2000, 0);
    let mut b = Backoff::new();
    s.on_dial_ok(&mut status, &mut b);
    assert_eq!(status.state, "STREAMING");
    s.on_chunk(&mut status, Some(-3000), 10);
    s.on_send_ok(&mut status, 4096, 10, "t1".to_string());
    assert_eq!(status.bytes_sent_total, 4096);
    // the peer drops the connection
    s.on_send_err(&mut status, "broken pipe".to_string());
    assert!(s.needs_dial());
    s.on_dial_start(&mut status);
    assert_eq!(status.state, "RECONNECTING");
    let sleep = s.on_dial_err(&mut status, &mut b, "refused".to_string());
    assert_eq!(sleep, 1);
    s.on_dial_ok(&mut status, &mut b);
    assert_eq!(status.state, "STREAMING");
    assert_eq!(status.last_error, None);
    // the byte counter continues from its prior total
    s.on_chunk(&mut status, Some(-3000), 1200);
    s.on_send_ok(&mut status, 1000, 1200, "t2".to_string());
    assert_eq!(status.bytes_sent_total, 5096);
}

#[test]
fn empty_chunk_moves_no_gate_state() {
    let mut status = StatusState::new("", "");
    let mut s = StreamSession::new(-4500, 2000, 0);
    s.on_chunk(&mut status, Some(-3000), 0);
    assert!(s.on_chunk(&mut status, None, 100));
    assert!(s.gate.active);
    assert_eq!(status.rms_centidb, None);
}

#[test]
fn status_register_fields_and_reads() {
    let mut st = StatusState::new("alsa0", "ws://host/ingest");
    st.set_state("STREAMING");
    st.set_capture_info(48000, 2, "F32".to_string());
    st.set_rms_db(Some(-4550));
    st.record_bytes(usize::MAX, "t".to_string());
    st.record_bytes(usize::MAX, "t".to_string());
    // the byte counter saturates rather than wrapping
    assert!(st.bytes_sent_total >= u64::MAX / 2);
    let h = st.health_snapshot("now".to_string());
    assert_eq!(h.ts, "now");
    assert_eq!(h.state, "STREAMING");
    assert_eq!(h.device, "alsa0");
    assert_eq!(h.ingest, "ws://host/ingest");
    let b = st.bridge_status();
    assert_eq!(b.device, Some("alsa0".to_string()));
    assert_eq!(b.rate, Some(48000));
    assert_eq!(b.channels, Some(2));
    assert_eq!(b.rms_centidb, Some(-4550));
    // an empty device name is reported as absent
    let mut st2 = StatusState::new("", "");
    let b2 = st2.bridge_status();
    assert_eq!(b2.device, None);
}

#[test]
fn pcm_sum_squares_counts_whole_samples() {
    // samples 3 and -2: 3*3 + (-2)*(-2) = 13
    let bytes = vec![3u8, 0, 0xFE, 0xFF];
    assert_eq!(pcm_sum_squares(&bytes), Some((13u128, 2u64)));
    // empty and single-byte buffers hold no whole sample
    assert_eq!(pcm_sum_squares(&vec![]), None);
    assert_eq!(pcm_sum_squares(&vec![1u8]), None);
    // a trailing odd byte is ignored
    assert_eq!(pcm_sum_squares(&vec![3u8, 0, 9]), Some((9u128, 1u64)));
}

#[test]
fn frame_chunk_writes_little_endian_pairs() {
    // the quantized forms of 1.0, -1.0, 0.5, -0.5
    let samples = vec![32767i16, -32767, 16383, -16383];
    let bytes = frame_chunk(&samples);
    assert_eq!(bytes, vec![0xFF, 0x7F, 0x01, 0x80, 0xFF, 0x3F, 0x01, 0xC0]);
    assert_eq!(bytes.len() % 4, 0);
}

#[test]
fn observed_rate_adaptation() {
    // the device announced 48 kHz but delivers 44100 frames a second
    let mut obs = RateObserver::new(48000, 48000, 0);
    assert!(!obs.needs_resample_rate());
    let d = obs.observe_input(44100 * 2 * 3, 2, 3000);
    assert_eq!(d, RateDecision::Changed { observed: 44100 });
    assert_eq!(obs.in_rate, 44100);
    assert!(obs.needs_resample_rate());
    // a steady stretch at the corrected rate only confirms it
    let d2 = obs.observe_input(44100 * 2 * 2, 2, 5000);
    assert_eq!(
        d2,
        RateDecision::Steady {
            observed: 44100,
            log_due: false
        }
    );
    assert_eq!(obs.in_rate, 44100);
}

#[test]
fn observed_rate_waits_two_seconds() {
    let mut obs = RateObserver::new(48000, 44100, 0);
    assert_eq!(obs.observe_input(4800, 2, 100), RateDecision::Pending);
    assert_eq!(obs.rate_frames, 2400);
}
