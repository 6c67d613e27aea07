use vstd::prelude::*;

use crate::backoff::Backoff;
use crate::health::HealthSnapshot;
use crate::models::{BridgeStatusRequest, CaptureDeviceInfo};

verus! {

/// A silence gap must last at least this long (milliseconds) for the next
/// burst of audio to count as a track change.
pub const TRACK_GAP_MS: u64 = 2000;

/// `a - b`, stopping at zero: elapsed time between two monotonic stamps.
pub open spec fn sat_sub(a: u64, b: u64) -> u64 {
    if a >= b {
        (a - b) as u64
    } else {
        0u64
    }
}

/// Where the kept PCM bytes go: a framed TCP stream opened with a one-line
/// header, or a WebSocket carrying one binary message per chunk.
#[derive(Clone, Debug, PartialEq, Eq)]
pub enum IngestTarget {
    Tcp { host: String, port: u16, header: String },
    Ws { url: String },
}

/// The amplitude detector: open while chunks reach the threshold, sustained for a
/// hold window after the last loud chunk, closed afterwards. Times are
/// milliseconds on a monotonic clock.
#[derive(Clone, Copy, Debug)]
pub struct VadGate {
    pub active: bool,
    pub last_active: Option<u64>,
}

impl VadGate {
    /// The sustain test: some chunk reached the threshold no longer than
    /// `hold_ms` ago.
    pub open spec fn keep_active(self, now_ms: u64, hold_ms: u64) -> bool {
        match self.last_active {
            Some(ts) => sat_sub(now_ms, ts) <= hold_ms,
            None => false,
        }
    }

    pub fn new() -> (r: Self)
        ensures
            r.active == false,
            r.last_active == None::<u64>,
    {
        VadGate { active: false, last_active: None }
    }

    pub fn set_active(&mut self, now_ms: u64)
        ensures
            final (self).active == true,
            final (self).last_active == Some(now_ms),
    {
        self.active = true;
        self.last_active = Some(now_ms);
    }

    pub fn set_inactive(&mut self)
        ensures
            final (self).active == false,
            final (self).last_active == old(self).last_active,
    {
        self.active = false;
    }

    pub fn should_keep_active(&self, now_ms: u64, hold_ms: u64) -> (r: bool)
        ensures
            r == self.keep_active(now_ms, hold_ms),
    {
        match self.last_active {
            Some(ts) => {
                let elapsed: u64 = if now_ms >= ts {
                    now_ms - ts
                } else {
                    0
                };
                elapsed <= hold_ms
            },
            None => false,
        }
    }
}

/// The detector after one chunk with envelope `rms_centidb` arriving at `now_ms`:
/// loud chunks open it and stamp the time, quiet chunks within the hold
/// window leave it alone, later quiet chunks close it.
pub open spec fn gate_after(g: VadGate, rms_centidb: i32, threshold_centidb: i32, hold_ms: u64, now_ms: u64) -> VadGate {
    if rms_centidb >= threshold_centidb {
        VadGate { active: true, last_active: Some(now_ms) }
    } else if g.keep_active(now_ms, hold_ms) {
        g
    } else {
        VadGate { active: false, last_active: g.last_active }
    }
}

/// The shared status register: one snapshot of the pipeline that setters keep
/// fresh and the health writer and control plane read.
#[derive(Clone, Debug)]
pub struct StatusState {
    pub state: String,
    pub device: String,
    pub ingest: String,
    pub last_error: Option<String>,
    pub rate: Option<u32>,
    pub channels: Option<u16>,
    pub format: Option<String>,
    pub rms_centidb: Option<i32>,
    pub track_change: bool,
    pub bytes_sent_total: u64,
    pub last_chunk_ts: Option<String>,
}

impl StatusState {
    pub fn new(device: &str, ingest: &str) -> (r: Self)
        ensures
            r.state@ == "IDLE"@,
            r.device@ == device@,
            r.ingest@ == ingest@,
            r.last_error == None::<String>,
            r.rate == None::<u32>,
            r.channels == None::<u16>,
            r.format == None::<String>,
            r.rms_centidb == None::<i32>,
            r.track_change == false,
            r.bytes_sent_total == 0,
            r.last_chunk_ts == None::<String>,
    {
        StatusState {
            state: "IDLE".to_owned(),
            device: device.to_owned(),
            ingest: ingest.to_owned(),
            last_error: None,
            rate: None,
            channels: None,
            format: None,
            rms_centidb: None,
            track_change: false,
            bytes_sent_total: 0,
            last_chunk_ts: None,
        }
    }

    pub fn set_state(&mut self, state: &str)
        ensures
            final (self).state@ == state@,
            *final (self) == (StatusState { state: final (self).state, ..*old(self) }),
    {
        self.state = state.to_owned();
    }

    pub fn set_last_error(&mut self, error: Option<String>)
        ensures
            final (self).last_error == error,
            *final (self) == (StatusState { last_error: error, ..*old(self) }),
    {
        self.last_error = error;
    }

    pub fn set_device(&mut self, device: &str)
        ensures
            final (self).device@ == device@,
            *final (self) == (StatusState { device: final (self).device, ..*old(self) }),
    {
        self.device = device.to_owned();
    }

    pub fn set_ingest(&mut self, ingest: &str)
        ensures
            final (self).ingest@ == ingest@,
            *final (self) == (StatusState { ingest: final (self).ingest, ..*old(self) }),
    {
        self.ingest = ingest.to_owned();
    }

    pub fn set_capture_info(&mut self, rate: u32, channels: u16, format: String)
        ensures
            *final (self) == (StatusState {
                rate: Some(rate),
                channels: Some(channels),
                format: Some(format),
                ..*old(self)
            }),
    {
        self.rate = Some(rate);
        self.channels = Some(channels);
        self.format = Some(format);
    }

    pub fn set_rms_db(&mut self, rms_centidb: Option<i32>)
        ensures
            *final (self) == (StatusState { rms_centidb: rms_centidb, ..*old(self) }),
    {
        self.rms_centidb = rms_centidb;
    }

    pub fn set_track_change(&mut self)
        ensures
            *final (self) == (StatusState { track_change: true, ..*old(self) }),
    {
        self.track_change = true;
    }

    /// Adds to the running byte counter (stopping at the top of `u64`) and
    /// stamps the chunk time.
    pub fn record_bytes(&mut self, bytes: usize, ts: String)
        ensures
            *final (self) == (StatusState {
                bytes_sent_total: old(self).bytes_sent_total.saturating_add(bytes as u64),
                last_chunk_ts: Some(ts),
                ..*old(self)
            }),
    {
        self.bytes_sent_total = self.bytes_sent_total.saturating_add(bytes as u64);
        self.last_chunk_ts = Some(ts);
    }

    /// A copy of the fields the health file shows, stamped with `ts`.
    pub fn health_snapshot(&self, ts: String) -> (r: HealthSnapshot)
        ensures
            r.ts == ts,
            r.state == self.state,
            r.device == self.device,
            r.ingest == self.ingest,
            r.last_error == self.last_error,
            r.bytes_sent_total == self.bytes_sent_total,
            r.last_chunk_ts == self.last_chunk_ts,
    {
        HealthSnapshot {
            ts,
            state: self.state.clone(),
            device: self.device.clone(),
            ingest: self.ingest.clone(),
            last_error: self.last_error.clone(),
            bytes_sent_total: self.bytes_sent_total,
            last_chunk_ts: self.last_chunk_ts.clone(),
        }
    }

    /// The control-plane read. It reports the one-shot track-change flag and
    /// clears it, so each silence-to-audio edge is reported exactly once.
    pub fn bridge_status(&mut self) -> (r: BridgeStatusRequest)
        ensures
            *final (self) == (StatusState { track_change: false, ..*old(self) }),
            r.state == old(self).state,
            r.device == (if old(self).device@.len() == 0 {
                None::<String>
            } else {
                Some(old(self).device)
            }),
            r.rate == old(self).rate,
            r.channels == old(self).channels,
            r.format == old(self).format,
            r.rms_centidb == old(self).rms_centidb,
            r.last_error == old(self).last_error,
            r.track_change == (if old(self).track_change {
                Some(true)
            } else {
                None::<bool>
            }),
            r.capture_devices == None::<Vec<CaptureDeviceInfo>>,
    {
        let track_change: Option<bool> = if self.track_change {
            self.track_change = false;
            Some(true)
        } else {
            None
        };
        BridgeStatusRequest {
            state: self.state.clone(),
            device: if self.device.as_str().is_empty() {
                None
            } else {
                Some(self.device.clone())
            },
            rate: self.rate,
            channels: self.channels,
            format: self.format.clone(),
            rms_centidb: self.rms_centidb,
            last_error: self.last_error.clone(),
            track_change,
            capture_devices: None,
        }
    }
}

/// One ingest session's verified state: the detector with its parameters, the
/// silence bookkeeping behind track changes, whether the transport is up, and
/// the throughput-log counters. The surrounding I/O loop dials, reads queues
/// and writes bytes; every decision is taken here.
#[derive(Clone, Copy, Debug)]
pub struct StreamSession {
    pub gate: VadGate,
    pub threshold_centidb: i32,
    pub hold_ms: u64,
    pub idle_since: Option<u64>,
    pub connected: bool,
    pub bytes_since_log: u64,
    pub last_rate_log_ms: u64,
}

/// The detector state this session's next chunk produces.
pub open spec fn chunk_gate(s: StreamSession, rms_centidb: i32, now_ms: u64) -> VadGate {
    gate_after(s.gate, rms_centidb, s.threshold_centidb, s.hold_ms, now_ms)
}

/// Whether this chunk raises the one-shot track-change flag: the detector opens
/// after a recorded silence of at least `TRACK_GAP_MS`.
pub open spec fn chunk_track(s: StreamSession, rms_centidb: i32, now_ms: u64) -> bool {
    &&& chunk_gate(s, rms_centidb, now_ms).active
    &&& !s.gate.active
    &&& s.idle_since matches Some(t) && sat_sub(now_ms, t) >= TRACK_GAP_MS
}

/// The silence stamp after this chunk: cleared on a rising edge, set on a
/// falling edge, kept otherwise.
pub open spec fn chunk_idle(s: StreamSession, rms_centidb: i32, now_ms: u64) -> Option<u64> {
    let g2 = chunk_gate(s, rms_centidb, now_ms);
    if g2.active && !s.gate.active {
        None
    } else if !g2.active && s.gate.active {
        Some(now_ms)
    } else {
        s.idle_since
    }
}

/// The whole session state after one chunk with a defined envelope.
pub open spec fn session_after_chunk(s: StreamSession, rms_centidb: i32, now_ms: u64) -> StreamSession {
    StreamSession {
        gate: chunk_gate(s, rms_centidb, now_ms),
        idle_since: chunk_idle(s, rms_centidb, now_ms),
        ..s
    }
}

impl StreamSession {
    pub fn new(threshold_centidb: i32, hold_ms: u64, now_ms: u64) -> (r: Self)
        ensures
            r.gate.active == false,
            r.gate.last_active == None::<u64>,
            r.threshold_centidb == threshold_centidb,
            r.hold_ms == hold_ms,
            r.idle_since == None::<u64>,
            r.connected == false,
            r.bytes_since_log == 0,
            r.last_rate_log_ms == now_ms,
    {
        StreamSession {
            gate: VadGate::new(),
            threshold_centidb,
            hold_ms,
            idle_since: None,
            connected: false,
            bytes_since_log: 0,
            last_rate_log_ms: now_ms,
        }
    }

    /// A hot update of the VAD parameters. The detector itself and the silence
    /// bookkeeping are untouched: tuning changes cause no audio gap.
    pub fn set_vad_params(&mut self, threshold_centidb: i32, hold_ms: u64)
        ensures
            *final (self) == (StreamSession {
                threshold_centidb: threshold_centidb,
                hold_ms: hold_ms,
                ..*old(self)
            }),
    {
        self.threshold_centidb = threshold_centidb;
        self.hold_ms = hold_ms;
    }

    /// True when the transport is down and the loop must redial.
    pub fn needs_dial(&self) -> (r: bool)
        ensures
            r == !self.connected,
    {
        !self.connected
    }

    /// Entering a dial attempt: the visible state becomes RECONNECTING.
    pub fn on_dial_start(&self, status: &mut StatusState)
        ensures
            final (status).state@ == "RECONNECTING"@,
            *final (status) == (StatusState { state: final (status).state, ..*old(status) }),
    {
        status.set_state("RECONNECTING");
    }

    /// A dial succeeded: the transport is up, the state shows STREAMING, the
    /// last error is cleared and the backoff starts over.
    pub fn on_dial_ok(&mut self, status: &mut StatusState, backoff: &mut Backoff)
        ensures
            *final (self) == (StreamSession { connected: true, ..*old(self) }),
            final (status).state@ == "STREAMING"@,
            *final (status) == (StatusState {
                state: final (status).state,
                last_error: None::<String>,
                ..*old(status)
            }),
            final (backoff).wf(),
            final (backoff).current() == 1,
    {
        self.connected = true;
        status.set_state("STREAMING");
        status.set_last_error(None);
        backoff.reset();
    }

    /// A dial failed: record the error and hand back how long to sleep before
    /// the next attempt.
    pub fn on_dial_err(&mut self, status: &mut StatusState, backoff: &mut Backoff, err: String) -> (sleep_secs: u64)
        requires
            old(backoff).wf(),
        ensures
            *final (self) == *old(self),
            *final (status) == (StatusState { last_error: Some(err), ..*old(status) }),
            sleep_secs == old(backoff).current(),
            final (backoff).wf(),
            final (backoff).current() == crate::backoff::next_current(old(backoff).current()),
    {
        status.set_last_error(Some(err));
        backoff.next_delay()
    }

    /// One chunk from the capture queue. Publishes the envelope, runs the
    /// detector, raises the track-change flag on a kept silence-to-audio edge,
    /// shows IDLE while the detector is closed, and says whether the chunk is to
    /// be sent. A chunk with no envelope (empty PCM) moves no detector state.
    pub fn on_chunk(&mut self, status: &mut StatusState, rms_centidb: Option<i32>, now_ms: u64) -> (send: bool)
        ensures
            ({
                let s = *old(self);
                match rms_centidb {
                    Some(rms) => *final (self) == session_after_chunk(s, rms, now_ms),
                    None => *final (self) == s,
                }
            }),
            ({
                let raised = match rms_centidb {
                    Some(rms) => chunk_track(*old(self), rms, now_ms),
                    None => false,
                };
                *final (status) == (StatusState {
                    rms_centidb: rms_centidb,
                    track_change: old(status).track_change || raised,
                    state: final (status).state,
                    ..*old(status)
                })
            }),
            send == final (self).gate.active,
            !final (self).gate.active ==> final (status).state@ == "IDLE"@,
            final (self).gate.active ==> final (status).state == old(status).state,
    {
        status.set_rms_db(rms_centidb);
        if let Some(rms) = rms_centidb {
            let was_active = self.gate.active;
            if rms >= self.threshold_centidb {
                self.gate.set_active(now_ms);
            } else if self.gate.should_keep_active(now_ms, self.hold_ms) {
            } else {
                self.gate.set_inactive();
            }

            if self.gate.active && !was_active {
                if let Some(idle_start) = self.idle_since {
                    let gap: u64 = if now_ms >= idle_start {
                        now_ms - idle_start
                    } else {
                        0
                    };
                    if gap >= TRACK_GAP_MS {
                        status.set_track_change();
                    }
                }
                self.idle_since = None;
            } else if !self.gate.active && was_active {
                self.idle_since = Some(now_ms);
            }
        }

        if !self.gate.active {
            status.set_state("IDLE");
        }
        self.gate.active
    }

    /// A chunk went out: the state shows STREAMING, the byte counter and the
    /// chunk stamp move, and every five seconds the bytes gathered since the
    /// last report are handed back for a throughput log.
    pub fn on_send_ok(&mut self, status: &mut StatusState, chunk_len: usize, now_ms: u64, ts: String) -> (log_bytes: Option<u64>)
        ensures
            final (status).state@ == "STREAMING"@,
            *final (status) == (StatusState {
                state: final (status).state,
                bytes_sent_total: old(status).bytes_sent_total.saturating_add(chunk_len as u64),
                last_chunk_ts: Some(ts),
                ..*old(status)
            }),
            ({
                let gathered = old(self).bytes_since_log.saturating_add(chunk_len as u64);
                if sat_sub(now_ms, old(self).last_rate_log_ms) >= 5000 {
                    log_bytes == Some(gathered) && *final (self) == (StreamSession {
                        bytes_since_log: 0u64,
                        last_rate_log_ms: now_ms,
                        ..*old(self)
                    })
                } else {
                    log_bytes == None::<u64> && *final (self) == (StreamSession {
                        bytes_since_log: gathered,
                        ..*old(self)
                    })
                }
            }),
    {
        status.set_state("STREAMING");
        status.record_bytes(chunk_len, ts);
        self.bytes_since_log = self.bytes_since_log.saturating_add(chunk_len as u64);
        let elapsed: u64 = if now_ms >= self.last_rate_log_ms {
            now_ms - self.last_rate_log_ms
        } else {
            0
        };
        if elapsed >= 5000 {
            let gathered = self.bytes_since_log;
            self.bytes_since_log = 0;
            self.last_rate_log_ms = now_ms;
            Some(gathered)
        } else {
            None
        }
    }

    /// A send failed: the transport is dropped (the loop will redial) and the
    /// error recorded.
    pub fn on_send_err(&mut self, status: &mut StatusState, err: String)
        ensures
            *final (self) == (StreamSession { connected: false, ..*old(self) }),
            *final (status) == (StatusState { last_error: Some(err), ..*old(status) }),
    {
        self.connected = false;
        status.set_last_error(Some(err));
    }

    /// The capture side reported an error: record it; the caller ends the
    /// session with it.
    pub fn on_capture_error(&self, status: &mut StatusState, message: String)
        ensures
            *final (status) == (StatusState { last_error: Some(message), ..*old(status) }),
    {
        status.set_last_error(Some(message));
    }
}

/// Feeding the same above-threshold chunk twice leaves the detector open and
/// cannot raise the track-change flag a second time: the flag needs a closed
/// detector, and the first chunk has opened it.
pub proof fn lemma_gate_idempotent(s: StreamSession, rms_centidb: i32, now1: u64, now2: u64)
    requires
        rms_centidb >= s.threshold_centidb,
    ensures
        session_after_chunk(s, rms_centidb, now1).gate.active,
        session_after_chunk(session_after_chunk(s, rms_centidb, now1), rms_centidb, now2).gate.active,
        !chunk_track(session_after_chunk(s, rms_centidb, now1), rms_centidb, now2),
{
}

/// The track-change flag rises exactly on a closed-to-open detector edge that
/// ends a recorded silence of at least `TRACK_GAP_MS`; and no chunk that
/// follows such an edge can raise it again before the detector has closed.
pub proof fn lemma_track_change_edge(s: StreamSession, rms_centidb: i32, now_ms: u64)
    ensures
        chunk_track(s, rms_centidb, now_ms) <==> {
            &&& !s.gate.active
            &&& chunk_gate(s, rms_centidb, now_ms).active
            &&& s.idle_since matches Some(t) && sat_sub(now_ms, t) >= TRACK_GAP_MS
        },
        chunk_track(s, rms_centidb, now_ms) ==> forall|rms2: i32, now2: u64|
            !chunk_track(session_after_chunk(s, rms_centidb, now_ms), rms2, now2),
{
}

} // verus!
