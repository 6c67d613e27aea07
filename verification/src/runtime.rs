use vstd::prelude::*;
use vstd::string::StringExecFns;

use crate::audio::{spec_parse_mode, ResamplerMode};
use crate::models::BridgeConfigResponse;
use crate::stream::IngestTarget;
use crate::text::{u64_dec_chars, u64_to_dec_string};

verus! {

pub const DEFAULT_VAD_THRESHOLD_CENTIDB: i32 = -4500;

pub const DEFAULT_VAD_HOLD_MS: u64 = 2000;

pub const DEFAULT_TARGET_RATE: u32 = 48000;

/// The runtime configuration the server owns: where to capture, how to
/// condition, where to send, and when to mute. VAD values are hundredths of
/// a decibel.
#[derive(Debug)]
pub struct RuntimeConfig {
    pub assigned_input_id: Option<String>,
    pub ingest_ws_url: Option<String>,
    pub ingest_tcp_host: Option<String>,
    pub ingest_tcp_port: Option<u16>,
    pub capture_device: Option<String>,
    pub vad_threshold_centidb: i32,
    pub vad_hold_ms: u64,
    pub target_rate: u32,
    pub resampler: ResamplerMode,
}

/// The mathematical image of a runtime configuration.
#[verifier::ext_equal]
pub ghost struct RuntimeConfigV {
    pub assigned_input_id: Option<Seq<char>>,
    pub ingest_ws_url: Option<Seq<char>>,
    pub ingest_tcp_host: Option<Seq<char>>,
    pub ingest_tcp_port: Option<u16>,
    pub capture_device: Option<Seq<char>>,
    pub vad_threshold_centidb: i32,
    pub vad_hold_ms: u64,
    pub target_rate: u32,
    pub resampler: ResamplerMode,
}

/// The mathematical image of a configuration reply.
#[verifier::ext_equal]
pub ghost struct BridgeConfigResponseV {
    pub assigned_input_id: Option<Seq<char>>,
    pub ingest_ws_url: Option<Seq<char>>,
    pub ingest_tcp_host: Option<Seq<char>>,
    pub ingest_tcp_port: Option<u16>,
    pub capture_device: Option<Seq<char>>,
    pub vad_threshold_centidb: Option<i32>,
    pub vad_hold_ms: Option<u64>,
    pub ingest_sample_rate: Option<u32>,
    pub ingest_resampler: Option<Seq<char>>,
}

/// The fields whose change forces a pipeline rebuild.
#[derive(Debug, PartialEq, Eq)]
pub struct StreamKey {
    pub assigned_input_id: Option<String>,
    pub ingest_ws_url: Option<String>,
    pub ingest_tcp_host: Option<String>,
    pub ingest_tcp_port: Option<u16>,
    pub capture_device: Option<String>,
    pub target_rate: u32,
    pub resampler: ResamplerMode,
}

/// The mathematical image of a stream key.
#[verifier::ext_equal]
pub ghost struct StreamKeyV {
    pub assigned_input_id: Option<Seq<char>>,
    pub ingest_ws_url: Option<Seq<char>>,
    pub ingest_tcp_host: Option<Seq<char>>,
    pub ingest_tcp_port: Option<u16>,
    pub capture_device: Option<Seq<char>>,
    pub target_rate: u32,
    pub resampler: ResamplerMode,
}

pub open spec fn opt_view(o: Option<String>) -> Option<Seq<char>> {
    match o {
        Some(s) => Some(s@),
        None => None,
    }
}

impl View for RuntimeConfig {
    type V = RuntimeConfigV;

    open spec fn view(&self) -> RuntimeConfigV {
        RuntimeConfigV {
            assigned_input_id: opt_view(self.assigned_input_id),
            ingest_ws_url: opt_view(self.ingest_ws_url),
            ingest_tcp_host: opt_view(self.ingest_tcp_host),
            ingest_tcp_port: self.ingest_tcp_port,
            capture_device: opt_view(self.capture_device),
            vad_threshold_centidb: self.vad_threshold_centidb,
            vad_hold_ms: self.vad_hold_ms,
            target_rate: self.target_rate,
            resampler: self.resampler,
        }
    }
}

impl View for BridgeConfigResponse {
    type V = BridgeConfigResponseV;

    open spec fn view(&self) -> BridgeConfigResponseV {
        BridgeConfigResponseV {
            assigned_input_id: opt_view(self.assigned_input_id),
            ingest_ws_url: opt_view(self.ingest_ws_url),
            ingest_tcp_host: opt_view(self.ingest_tcp_host),
            ingest_tcp_port: self.ingest_tcp_port,
            capture_device: opt_view(self.capture_device),
            vad_threshold_centidb: self.vad_threshold_centidb,
            vad_hold_ms: self.vad_hold_ms,
            ingest_sample_rate: self.ingest_sample_rate,
            ingest_resampler: opt_view(self.ingest_resampler),
        }
    }
}

impl View for StreamKey {
    type V = StreamKeyV;

    open spec fn view(&self) -> StreamKeyV {
        StreamKeyV {
            assigned_input_id: opt_view(self.assigned_input_id),
            ingest_ws_url: opt_view(self.ingest_ws_url),
            ingest_tcp_host: opt_view(self.ingest_tcp_host),
            ingest_tcp_port: self.ingest_tcp_port,
            capture_device: opt_view(self.capture_device),
            target_rate: self.target_rate,
            resampler: self.resampler,
        }
    }
}

/// The mode a reply's resampler word picks; a missing or unknown word means
/// the quality sinc filter.
pub open spec fn spec_parse_resampler(v: Option<Seq<char>>) -> ResamplerMode {
    match v {
        Some(s) => match spec_parse_mode(s) {
            Some(m) => m,
            None => ResamplerMode::SincQuality,
        },
        None => ResamplerMode::SincQuality,
    }
}

pub fn parse_resampler(value: Option<&str>) -> (r: ResamplerMode)
    ensures
        r == spec_parse_resampler(match value {
            Some(s) => Some(s@),
            None => None,
        }),
{
    match value {
        Some(s) => match ResamplerMode::parse(s) {
            Some(m) => m,
            None => ResamplerMode::SincQuality,
        },
        None => ResamplerMode::SincQuality,
    }
}

/// The configuration after a reply is merged in: routing fields are taken
/// from the reply outright, while the rates and the VAD parameters change
/// only when the reply carries them.
pub open spec fn merged(c: RuntimeConfigV, r: BridgeConfigResponseV) -> RuntimeConfigV {
    RuntimeConfigV {
        assigned_input_id: r.assigned_input_id,
        ingest_ws_url: r.ingest_ws_url,
        ingest_tcp_host: r.ingest_tcp_host,
        ingest_tcp_port: r.ingest_tcp_port,
        capture_device: r.capture_device,
        vad_threshold_centidb: match r.vad_threshold_centidb {
            Some(v) => v,
            None => c.vad_threshold_centidb,
        },
        vad_hold_ms: match r.vad_hold_ms {
            Some(h) => h,
            None => c.vad_hold_ms,
        },
        target_rate: match r.ingest_sample_rate {
            Some(x) => x,
            None => c.target_rate,
        },
        resampler: match r.ingest_resampler {
            Some(s) => spec_parse_resampler(Some(s)),
            None => c.resampler,
        },
    }
}

/// Whether a reply changes anything at all in the configuration.
pub open spec fn update_changed(c: RuntimeConfigV, r: BridgeConfigResponseV) -> bool {
    ||| r.assigned_input_id != c.assigned_input_id
    ||| r.ingest_ws_url != c.ingest_ws_url
    ||| r.ingest_tcp_host != c.ingest_tcp_host
    ||| r.ingest_tcp_port != c.ingest_tcp_port
    ||| r.capture_device != c.capture_device
    ||| (r.ingest_sample_rate matches Some(x) && x != c.target_rate)
    ||| (r.ingest_resampler matches Some(s) && spec_parse_resampler(Some(s)) != c.resampler)
    ||| (r.vad_threshold_centidb matches Some(v) && v != c.vad_threshold_centidb)
    ||| (r.vad_hold_ms matches Some(h) && h != c.vad_hold_ms)
}

/// The configuration is ready when the routing token and the device are set
/// and one transport is fully specified.
pub open spec fn spec_is_ready(c: RuntimeConfigV) -> bool {
    &&& c.assigned_input_id is Some
    &&& c.capture_device is Some
    &&& (c.ingest_ws_url is Some || (c.ingest_tcp_host is Some && c.ingest_tcp_port is Some))
}

/// The key projection: everything but the VAD parameters.
pub open spec fn spec_stream_key(c: RuntimeConfigV) -> StreamKeyV {
    StreamKeyV {
        assigned_input_id: c.assigned_input_id,
        ingest_ws_url: c.ingest_ws_url,
        ingest_tcp_host: c.ingest_tcp_host,
        ingest_tcp_port: c.ingest_tcp_port,
        capture_device: c.capture_device,
        target_rate: c.target_rate,
        resampler: c.resampler,
    }
}

/// The label the status register shows for the ingest side: the WebSocket
/// URL, or `host:port`, or `unassigned`.
pub open spec fn spec_ingest_label(c: RuntimeConfigV) -> Seq<char> {
    match c.ingest_ws_url {
        Some(u) => u,
        None => match (c.ingest_tcp_host, c.ingest_tcp_port) {
            (Some(h), Some(p)) => h + ":"@ + u64_dec_chars(p as u64),
            _ => "unassigned"@,
        },
    }
}

fn opt_str_eq(a: &Option<String>, b: &Option<String>) -> (r: bool)
    ensures
        r == (opt_view(*a) == opt_view(*b)),
{
    match a {
        Some(x) => match b {
            Some(y) => x.eq(y),
            None => false,
        },
        None => match b {
            Some(_) => false,
            None => true,
        },
    }
}

fn clone_opt_string(o: &Option<String>) -> (r: Option<String>)
    ensures
        opt_view(r) == opt_view(*o),
{
    match o {
        None => None,
        Some(s) => Some(s.clone()),
    }
}

impl RuntimeConfig {
    /// The configuration seeded by the registration reply, with the defaults
    /// filled in: -45 dBFS, 2000 ms hold, 48 kHz, quality sinc.
    pub fn from_response(response: BridgeConfigResponse) -> (r: Self)
        ensures
            r@ == (RuntimeConfigV {
                assigned_input_id: response@.assigned_input_id,
                ingest_ws_url: response@.ingest_ws_url,
                ingest_tcp_host: response@.ingest_tcp_host,
                ingest_tcp_port: response@.ingest_tcp_port,
                capture_device: response@.capture_device,
                vad_threshold_centidb: match response@.vad_threshold_centidb {
                    Some(v) => v,
                    None => DEFAULT_VAD_THRESHOLD_CENTIDB,
                },
                vad_hold_ms: match response@.vad_hold_ms {
                    Some(h) => h,
                    None => DEFAULT_VAD_HOLD_MS,
                },
                target_rate: match response@.ingest_sample_rate {
                    Some(x) => x,
                    None => DEFAULT_TARGET_RATE,
                },
                resampler: spec_parse_resampler(response@.ingest_resampler),
            }),
    {
        let BridgeConfigResponse {
            assigned_input_id,
            ingest_ws_url,
            ingest_tcp_host,
            ingest_tcp_port,
            capture_device,
            vad_threshold_centidb,
            vad_hold_ms,
            ingest_sample_rate,
            ingest_resampler,
        } = response;
        let resampler = match &ingest_resampler {
            Some(s) => parse_resampler(Some(s.as_str())),
            None => parse_resampler(None),
        };
        let r = RuntimeConfig {
            assigned_input_id,
            ingest_ws_url,
            ingest_tcp_host,
            ingest_tcp_port,
            capture_device,
            vad_threshold_centidb: match vad_threshold_centidb {
                Some(v) => v,
                None => DEFAULT_VAD_THRESHOLD_CENTIDB,
            },
            vad_hold_ms: match vad_hold_ms {
                Some(h) => h,
                None => DEFAULT_VAD_HOLD_MS,
            },
            target_rate: match ingest_sample_rate {
                Some(x) => x,
                None => DEFAULT_TARGET_RATE,
            },
            resampler,
        };
        proof {
            assert(r@ =~= (RuntimeConfigV {
                assigned_input_id: response@.assigned_input_id,
                ingest_ws_url: response@.ingest_ws_url,
                ingest_tcp_host: response@.ingest_tcp_host,
                ingest_tcp_port: response@.ingest_tcp_port,
                capture_device: response@.capture_device,
                vad_threshold_centidb: match response@.vad_threshold_centidb {
                    Some(v) => v,
                    None => DEFAULT_VAD_THRESHOLD_CENTIDB,
                },
                vad_hold_ms: match response@.vad_hold_ms {
                    Some(h) => h,
                    None => DEFAULT_VAD_HOLD_MS,
                },
                target_rate: match response@.ingest_sample_rate {
                    Some(x) => x,
                    None => DEFAULT_TARGET_RATE,
                },
                resampler: spec_parse_resampler(response@.ingest_resampler),
            }));
        }
        r
    }

    /// A field-for-field copy.
    pub fn duplicate(&self) -> (r: Self)
        ensures
            r@ == self@,
    {
        let r = RuntimeConfig {
            assigned_input_id: clone_opt_string(&self.assigned_input_id),
            ingest_ws_url: clone_opt_string(&self.ingest_ws_url),
            ingest_tcp_host: clone_opt_string(&self.ingest_tcp_host),
            ingest_tcp_port: self.ingest_tcp_port,
            capture_device: clone_opt_string(&self.capture_device),
            vad_threshold_centidb: self.vad_threshold_centidb,
            vad_hold_ms: self.vad_hold_ms,
            target_rate: self.target_rate,
            resampler: self.resampler,
        };
        proof {
            assert(r@ =~= self@);
        }
        r
    }

    /// Merges one reply in. Routing fields are replaced when they differ;
    /// the rates and VAD parameters change only when the reply carries them.
    /// Returns a copy of the new configuration when anything changed, `None`
    /// when nothing did.
    pub fn update(&mut self, response: BridgeConfigResponse) -> (r: Option<RuntimeConfig>)
        ensures
            final (self)@ == merged(old(self)@, response@),
            match r {
                Some(c) => update_changed(old(self)@, response@) && c@ == final (self)@,
                None => !update_changed(old(self)@, response@),
            },
    {
        let BridgeConfigResponse {
            assigned_input_id,
            ingest_ws_url,
            ingest_tcp_host,
            ingest_tcp_port,
            capture_device,
            vad_threshold_centidb,
            vad_hold_ms,
            ingest_sample_rate,
            ingest_resampler,
        } = response;
        let mut changed = false;
        if !opt_str_eq(&assigned_input_id, &self.assigned_input_id) {
            self.assigned_input_id = assigned_input_id;
            changed = true;
        }
        if !opt_str_eq(&ingest_ws_url, &self.ingest_ws_url) {
            self.ingest_ws_url = ingest_ws_url;
            changed = true;
        }
        if !opt_str_eq(&ingest_tcp_host, &self.ingest_tcp_host) {
            self.ingest_tcp_host = ingest_tcp_host;
            changed = true;
        }
        if ingest_tcp_port != self.ingest_tcp_port {
            self.ingest_tcp_port = ingest_tcp_port;
            changed = true;
        }
        if !opt_str_eq(&capture_device, &self.capture_device) {
            self.capture_device = capture_device;
            changed = true;
        }
        if let Some(rate) = ingest_sample_rate {
            if rate != self.target_rate {
                self.target_rate = rate;
                changed = true;
            }
        }
        if let Some(mode) = &ingest_resampler {
            let next = parse_resampler(Some(mode.as_str()));
            if next != self.resampler {
                self.resampler = next;
                changed = true;
            }
        }
        if let Some(vad) = vad_threshold_centidb {
            if vad != self.vad_threshold_centidb {
                self.vad_threshold_centidb = vad;
                changed = true;
            }
        }
        if let Some(hold) = vad_hold_ms {
            if hold != self.vad_hold_ms {
                self.vad_hold_ms = hold;
                changed = true;
            }
        }
        proof {
            assert(self@ =~= merged(old(self)@, response@));
        }
        if changed {
            Some(self.duplicate())
        } else {
            None
        }
    }

    pub fn is_ready(&self) -> (r: bool)
        ensures
            r == spec_is_ready(self@),
    {
        self.assigned_input_id.is_some() && self.capture_device.is_some() && (
        self.ingest_ws_url.is_some() || (self.ingest_tcp_host.is_some()
            && self.ingest_tcp_port.is_some()))
    }

    /// The transport this configuration names, the WebSocket target preferred
    /// when both are present; `None` while one is incomplete.
    pub fn ingest_target(&self) -> (r: Option<IngestTarget>)
        ensures
            ({
                let c = self@;
                match r {
                    Some(t) => match t {
                        IngestTarget::Ws { url } => c.ingest_ws_url == Some(url@),
                        IngestTarget::Tcp { host, port, header } => {
                            &&& c.ingest_ws_url is None
                            &&& c.ingest_tcp_host == Some(host@)
                            &&& c.ingest_tcp_port == Some(port)
                            &&& c.assigned_input_id == Some(header@)
                        },
                    },
                    None => {
                        &&& c.ingest_ws_url is None
                        &&& !(c.ingest_tcp_host is Some && c.ingest_tcp_port is Some
                            && c.assigned_input_id is Some)
                    },
                }
            }),
    {
        if let Some(url) = &self.ingest_ws_url {
            return Some(IngestTarget::Ws { url: url.clone() });
        }
        match (&self.ingest_tcp_host, self.ingest_tcp_port, &self.assigned_input_id) {
            (Some(host), Some(port), Some(header)) => Some(IngestTarget::Tcp {
                host: host.clone(),
                port,
                header: header.clone(),
            }),
            _ => None,
        }
    }

    pub fn ingest_label(&self) -> (r: String)
        ensures
            r@ == spec_ingest_label(self@),
    {
        if let Some(url) = &self.ingest_ws_url {
            return url.clone();
        }
        match (&self.ingest_tcp_host, self.ingest_tcp_port) {
            (Some(host), Some(port)) => {
                let mut label = host.clone();
                label.append(":");
                let digits = u64_to_dec_string(port as u64);
                label.append(digits.as_str());
                label
            },
            _ => "unassigned".to_owned(),
        }
    }

    pub fn stream_key(&self) -> (k: StreamKey)
        ensures
            k@ == spec_stream_key(self@),
    {
        let k = StreamKey {
            assigned_input_id: clone_opt_string(&self.assigned_input_id),
            ingest_ws_url: clone_opt_string(&self.ingest_ws_url),
            ingest_tcp_host: clone_opt_string(&self.ingest_tcp_host),
            ingest_tcp_port: self.ingest_tcp_port,
            capture_device: clone_opt_string(&self.capture_device),
            target_rate: self.target_rate,
            resampler: self.resampler,
        };
        proof {
            assert(k@ =~= spec_stream_key(self@));
        }
        k
    }
}

/// The stream key tracks exactly the routed fields: merging a reply leaves
/// the key unchanged precisely when the reply's routing fields match the
/// configuration (a reply that carries only VAD changes does), and any
/// routed difference changes the key.
pub proof fn lemma_stream_key_update(c: RuntimeConfigV, r: BridgeConfigResponseV)
    ensures
        spec_stream_key(merged(c, r)) == spec_stream_key(c) <==> {
            &&& r.assigned_input_id == c.assigned_input_id
            &&& r.ingest_ws_url == c.ingest_ws_url
            &&& r.ingest_tcp_host == c.ingest_tcp_host
            &&& r.ingest_tcp_port == c.ingest_tcp_port
            &&& r.capture_device == c.capture_device
            &&& match r.ingest_sample_rate {
                Some(x) => x == c.target_rate,
                None => true,
            }
            &&& match r.ingest_resampler {
                Some(s) => spec_parse_resampler(Some(s)) == c.resampler,
                None => true,
            }
        },
{
    let m = merged(c, r);
    if spec_stream_key(m) == spec_stream_key(c) {
        assert(spec_stream_key(m).assigned_input_id == spec_stream_key(c).assigned_input_id);
    } else {
        if {
            &&& r.assigned_input_id == c.assigned_input_id
            &&& r.ingest_ws_url == c.ingest_ws_url
            &&& r.ingest_tcp_host == c.ingest_tcp_host
            &&& r.ingest_tcp_port == c.ingest_tcp_port
            &&& r.capture_device == c.capture_device
            &&& match r.ingest_sample_rate {
                Some(x) => x == c.target_rate,
                None => true,
            }
            &&& match r.ingest_resampler {
                Some(s) => spec_parse_resampler(Some(s)) == c.resampler,
                None => true,
            }
        } {
            assert(spec_stream_key(m) =~= spec_stream_key(c));
        }
    }
}

} // verus!
