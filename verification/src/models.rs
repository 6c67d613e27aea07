use vstd::prelude::*;
use vstd::string::StringSliceAdditionalSpecFns;
use vstd::utf8::{decode_utf8, valid_utf8};

use crate::json::{
    bytes_eq_str, is_digit_byte, parse_centi, parse_quoted, parse_u64, skip_scalar, skip_ws,
    spec_expect, spec_parse_centi, spec_parse_quoted, spec_parse_u64, spec_skip_scalar, ws_end,
};
use crate::text::string_from_utf8;

verus! {

/// One capture device as reported to the server: identifier, display name,
/// the most channels any of its input configurations offers, and the sorted
/// set of supported sample-rate endpoints.
#[derive(Clone, Debug, PartialEq, Eq)]
pub struct CaptureDeviceInfo {
    pub id: String,
    pub name: String,
    pub channels: u16,
    pub sample_rates: Vec<u32>,
}

/// Body of the one-time registration post: who this bridge is and what it can
/// capture.
#[derive(Clone, Debug, PartialEq, Eq)]
pub struct BridgeRegisterRequest {
    pub bridge_id: String,
    pub hostname: String,
    pub version: String,
    pub ip: String,
    pub mac: String,
    pub capture_devices: Vec<CaptureDeviceInfo>,
}

/// Body of the periodic status post. The RMS envelope is carried in
/// hundredths of a decibel so that the detector arithmetic stays exact.
#[derive(Clone, Debug, PartialEq, Eq)]
pub struct BridgeStatusRequest {
    pub state: String,
    pub device: Option<String>,
    pub rate: Option<u32>,
    pub channels: Option<u16>,
    pub format: Option<String>,
    pub rms_centidb: Option<i32>,
    pub last_error: Option<String>,
    pub track_change: Option<bool>,
    pub capture_devices: Option<Vec<CaptureDeviceInfo>>,
}

/// The server's reply to a registration or status post: every field optional,
/// so partial updates come naturally. The VAD threshold is carried in
/// hundredths of a decibel.
#[derive(Clone, Debug, PartialEq, Eq)]
pub struct BridgeConfigResponse {
    pub assigned_input_id: Option<String>,
    pub ingest_ws_url: Option<String>,
    pub ingest_tcp_host: Option<String>,
    pub ingest_tcp_port: Option<u16>,
    pub capture_device: Option<String>,
    pub vad_threshold_centidb: Option<i32>,
    pub vad_hold_ms: Option<u64>,
    pub ingest_sample_rate: Option<u32>,
    pub ingest_resampler: Option<String>,
}

/// What a walk of a configuration reply has gathered: raw bytes for the
/// string fields, parsed scalars for the rest.
#[verifier::ext_equal]
pub ghost struct RespAcc {
    pub assigned_input_id: Option<Seq<u8>>,
    pub ingest_ws_url: Option<Seq<u8>>,
    pub ingest_tcp_host: Option<Seq<u8>>,
    pub ingest_tcp_port: Option<u16>,
    pub capture_device: Option<Seq<u8>>,
    pub vad_threshold_centidb: Option<i32>,
    pub vad_hold_ms: Option<u64>,
    pub ingest_sample_rate: Option<u32>,
    pub ingest_resampler: Option<Seq<u8>>,
}

pub open spec fn empty_resp_acc() -> RespAcc {
    RespAcc {
        assigned_input_id: None,
        ingest_ws_url: None,
        ingest_tcp_host: None,
        ingest_tcp_port: None,
        capture_device: None,
        vad_threshold_centidb: None,
        vad_hold_ms: None,
        ingest_sample_rate: None,
        ingest_resampler: None,
    }
}

/// The exec twin of `RespAcc`, filled while the reply is walked.
struct RespFields {
    assigned_input_id: Option<Vec<u8>>,
    ingest_ws_url: Option<Vec<u8>>,
    ingest_tcp_host: Option<Vec<u8>>,
    ingest_tcp_port: Option<u16>,
    capture_device: Option<Vec<u8>>,
    vad_threshold_centidb: Option<i32>,
    vad_hold_ms: Option<u64>,
    ingest_sample_rate: Option<u32>,
    ingest_resampler: Option<Vec<u8>>,
}

impl View for RespFields {
    type V = RespAcc;

    closed spec fn view(&self) -> RespAcc {
        RespAcc {
            assigned_input_id: match &self.assigned_input_id {
                Some(v) => Some(v@),
                None => None,
            },
            ingest_ws_url: match &self.ingest_ws_url {
                Some(v) => Some(v@),
                None => None,
            },
            ingest_tcp_host: match &self.ingest_tcp_host {
                Some(v) => Some(v@),
                None => None,
            },
            ingest_tcp_port: self.ingest_tcp_port,
            capture_device: match &self.capture_device {
                Some(v) => Some(v@),
                None => None,
            },
            vad_threshold_centidb: self.vad_threshold_centidb,
            vad_hold_ms: self.vad_hold_ms,
            ingest_sample_rate: self.ingest_sample_rate,
            ingest_resampler: match &self.ingest_resampler {
                Some(v) => Some(v@),
                None => None,
            },
        }
    }
}

/// The word `null`.
pub open spec fn null_bytes() -> Seq<u8> {
    seq![110u8, 117u8, 108u8, 108u8]
}

/// A string field's value at `pos`: `null` clears it, a quoted string sets
/// its bytes.
pub open spec fn spec_str_value(bs: Seq<u8>, pos: int) -> Option<(Option<Seq<u8>>, int)> {
    match spec_expect(bs, pos, null_bytes()) {
        Some(e) => Some((None, e)),
        None => match spec_parse_quoted(bs, pos) {
            Some(p) => Some((Some(p.0), p.1)),
            None => None,
        },
    }
}

/// One `"key": value` pair of a configuration reply at `pos` (`pos` at the
/// key's opening quote), folded into `acc`. Unknown keys are passed over
/// when their value is a scalar.
pub open spec fn spec_resp_field(bs: Seq<u8>, pos: int, acc: RespAcc) -> Option<(RespAcc, int)> {
    match spec_parse_quoted(bs, pos) {
        Some((kb, p1)) => {
            let p2 = ws_end(bs, p1);
            if p2 < bs.len() && bs[p2] == 58 {
                let p4 = ws_end(bs, p2 + 1);
                if kb == "assigned_input_id".spec_bytes() {
                    match spec_str_value(bs, p4) {
                        Some((v, e)) => Some((RespAcc { assigned_input_id: v, ..acc }, e)),
                        None => None,
                    }
                } else if kb == "ingest_ws_url".spec_bytes() {
                    match spec_str_value(bs, p4) {
                        Some((v, e)) => Some((RespAcc { ingest_ws_url: v, ..acc }, e)),
                        None => None,
                    }
                } else if kb == "ingest_tcp_host".spec_bytes() {
                    match spec_str_value(bs, p4) {
                        Some((v, e)) => Some((RespAcc { ingest_tcp_host: v, ..acc }, e)),
                        None => None,
                    }
                } else if kb == "capture_device".spec_bytes() {
                    match spec_str_value(bs, p4) {
                        Some((v, e)) => Some((RespAcc { capture_device: v, ..acc }, e)),
                        None => None,
                    }
                } else if kb == "ingest_resampler".spec_bytes() {
                    match spec_str_value(bs, p4) {
                        Some((v, e)) => Some((RespAcc { ingest_resampler: v, ..acc }, e)),
                        None => None,
                    }
                } else if kb == "ingest_tcp_port".spec_bytes() {
                    match spec_expect(bs, p4, null_bytes()) {
                        Some(e) => Some((RespAcc { ingest_tcp_port: None, ..acc }, e)),
                        None => match spec_parse_u64(bs, p4) {
                            Some((n, e)) => if n <= u16::MAX {
                                Some((RespAcc { ingest_tcp_port: Some(n as u16), ..acc }, e))
                            } else {
                                None
                            },
                            None => None,
                        },
                    }
                } else if kb == "ingest_sample_rate".spec_bytes() {
                    match spec_expect(bs, p4, null_bytes()) {
                        Some(e) => Some((RespAcc { ingest_sample_rate: None, ..acc }, e)),
                        None => match spec_parse_u64(bs, p4) {
                            Some((n, e)) => if n <= u32::MAX {
                                Some((RespAcc { ingest_sample_rate: Some(n as u32), ..acc }, e))
                            } else {
                                None
                            },
                            None => None,
                        },
                    }
                } else if kb == "vad_hold_ms".spec_bytes() {
                    match spec_expect(bs, p4, null_bytes()) {
                        Some(e) => Some((RespAcc { vad_hold_ms: None, ..acc }, e)),
                        None => match spec_parse_u64(bs, p4) {
                            Some((n, e)) => Some((RespAcc { vad_hold_ms: Some(n), ..acc }, e)),
                            None => None,
                        },
                    }
                } else if kb == "vad_threshold_db".spec_bytes() {
                    match spec_expect(bs, p4, null_bytes()) {
                        Some(e) => Some((RespAcc { vad_threshold_centidb: None, ..acc }, e)),
                        None => match spec_parse_centi(bs, p4) {
                            Some((v, e)) => Some(
                                (RespAcc { vad_threshold_centidb: Some(v), ..acc }, e),
                            ),
                            None => None,
                        },
                    }
                } else {
                    match spec_skip_scalar(bs, p4) {
                        Some(e) => Some((acc, e)),
                        None => None,
                    }
                }
            } else {
                None
            }
        },
        None => None,
    }
}

/// The fields of a reply object from `pos` on (`pos` just past `{` or a
/// comma), folded into `acc`.
pub open spec fn spec_parse_resp_at(bs: Seq<u8>, pos: int, acc: RespAcc, fuel: nat) -> Option<
    RespAcc,
>
    decreases fuel,
{
    if fuel == 0 {
        None
    } else {
        let p = ws_end(bs, pos);
        if p < bs.len() && bs[p] == 125 {
            Some(acc)
        } else {
            match spec_resp_field(bs, p, acc) {
                Some((acc2, e)) => {
                    let q = ws_end(bs, e);
                    if q < bs.len() && bs[q] == 44 {
                        spec_parse_resp_at(bs, q + 1, acc2, (fuel - 1) as nat)
                    } else if q < bs.len() && bs[q] == 125 {
                        Some(acc2)
                    } else {
                        None
                    }
                },
                None => None,
            }
        }
    }
}

/// A configuration reply read into raw field values.
pub open spec fn spec_parse_response(bs: Seq<u8>) -> Option<RespAcc> {
    let p = ws_end(bs, 0);
    if p < bs.len() && bs[p] == 123 {
        spec_parse_resp_at(bs, p + 1, empty_resp_acc(), (bs.len() + 1) as nat)
    } else {
        None
    }
}

/// Whether every string field that the walk gathered is valid UTF-8.
pub open spec fn resp_acc_ok(acc: RespAcc) -> bool {
    &&& match acc.assigned_input_id {
        Some(b) => valid_utf8(b),
        None => true,
    }
    &&& match acc.ingest_ws_url {
        Some(b) => valid_utf8(b),
        None => true,
    }
    &&& match acc.ingest_tcp_host {
        Some(b) => valid_utf8(b),
        None => true,
    }
    &&& match acc.capture_device {
        Some(b) => valid_utf8(b),
        None => true,
    }
    &&& match acc.ingest_resampler {
        Some(b) => valid_utf8(b),
        None => true,
    }
}

/// The reply the gathered bytes decode to.
pub open spec fn resp_of_acc(acc: RespAcc) -> crate::runtime::BridgeConfigResponseV
    recommends
        resp_acc_ok(acc),
{
    crate::runtime::BridgeConfigResponseV {
        assigned_input_id: match acc.assigned_input_id {
            Some(b) => Some(decode_utf8(b)),
            None => None,
        },
        ingest_ws_url: match acc.ingest_ws_url {
            Some(b) => Some(decode_utf8(b)),
            None => None,
        },
        ingest_tcp_host: match acc.ingest_tcp_host {
            Some(b) => Some(decode_utf8(b)),
            None => None,
        },
        ingest_tcp_port: acc.ingest_tcp_port,
        capture_device: match acc.capture_device {
            Some(b) => Some(decode_utf8(b)),
            None => None,
        },
        vad_threshold_centidb: acc.vad_threshold_centidb,
        vad_hold_ms: acc.vad_hold_ms,
        ingest_sample_rate: acc.ingest_sample_rate,
        ingest_resampler: match acc.ingest_resampler {
            Some(b) => Some(decode_utf8(b)),
            None => None,
        },
    }
}

/// Reads a string field's value: `null` or a quoted string.
fn parse_str_value(bs: &Vec<u8>, pos: usize) -> (r: Option<(Option<Vec<u8>>, usize)>)
    ensures
        match r {
            Some(p) => ({
                let v = match &p.0 {
                    Some(b) => Some(b@),
                    None => None,
                };
                spec_str_value(bs@, pos as int) == Some((v, p.1 as int)) && pos < p.1
                    <= bs@.len()
            }),
            None => spec_str_value(bs@, pos as int) is None,
        },
{
    if pos < bs.len() && bs.len() - pos >= 4 && bs[pos] == 110 && bs[pos + 1] == 117 && bs[pos
        + 2] == 108 && bs[pos + 3] == 108 {
        proof {
            assert(bs@.subrange(pos as int, pos + 4) =~= null_bytes());
        }
        return Some((None, pos + 4));
    }
    proof {
        if 0 <= pos && pos + 4 <= bs@.len() && bs@.subrange(pos as int, pos + 4) == null_bytes() {
            assert(bs@.subrange(pos as int, pos + 4)[0] == bs@[pos as int]);
            assert(bs@.subrange(pos as int, pos + 4)[1] == bs@[pos + 1]);
            assert(bs@.subrange(pos as int, pos + 4)[2] == bs@[pos + 2]);
            assert(bs@.subrange(pos as int, pos + 4)[3] == bs@[pos + 3]);
        }
    }
    match parse_quoted(bs, pos) {
        Some((v, e)) => Some((Some(v), e)),
        None => None,
    }
}

/// Reads one `"key": value` pair into the gathered fields.
fn parse_resp_field(bs: &Vec<u8>, pos: usize, f: &mut RespFields) -> (r: Option<usize>)
    ensures
        match r {
            Some(e) => spec_resp_field(bs@, pos as int, old(f)@) == Some((final (f)@, e as int))
                && pos < e <= bs@.len(),
            None => spec_resp_field(bs@, pos as int, old(f)@) is None,
        },
{
    let (kb, p1) = match parse_quoted(bs, pos) {
        Some(p) => p,
        None => {
            return None;
        },
    };
    let p2 = skip_ws(bs, p1);
    if !(p2 < bs.len() && bs[p2] == 58) {
        return None;
    }
    let p4 = skip_ws(bs, p2 + 1);
    if bytes_eq_str(&kb, "assigned_input_id") {
        match parse_str_value(bs, p4) {
            Some((v, e)) => {
                f.assigned_input_id = v;
                Some(e)
            },
            None => None,
        }
    } else if bytes_eq_str(&kb, "ingest_ws_url") {
        match parse_str_value(bs, p4) {
            Some((v, e)) => {
                f.ingest_ws_url = v;
                Some(e)
            },
            None => None,
        }
    } else if bytes_eq_str(&kb, "ingest_tcp_host") {
        match parse_str_value(bs, p4) {
            Some((v, e)) => {
                f.ingest_tcp_host = v;
                Some(e)
            },
            None => None,
        }
    } else if bytes_eq_str(&kb, "capture_device") {
        match parse_str_value(bs, p4) {
            Some((v, e)) => {
                f.capture_device = v;
                Some(e)
            },
            None => None,
        }
    } else if bytes_eq_str(&kb, "ingest_resampler") {
        match parse_str_value(bs, p4) {
            Some((v, e)) => {
                f.ingest_resampler = v;
                Some(e)
            },
            None => None,
        }
    } else if bytes_eq_str(&kb, "ingest_tcp_port") {
        match parse_str_value_null(bs, p4) {
            Some(e) => {
                f.ingest_tcp_port = None;
                Some(e)
            },
            None => match parse_u64(bs, p4) {
                Some((n, e)) => {
                    if n <= u16::MAX as u64 {
                        f.ingest_tcp_port = Some(n as u16);
                        Some(e)
                    } else {
                        None
                    }
                },
                None => None,
            },
        }
    } else if bytes_eq_str(&kb, "ingest_sample_rate") {
        match parse_str_value_null(bs, p4) {
            Some(e) => {
                f.ingest_sample_rate = None;
                Some(e)
            },
            None => match parse_u64(bs, p4) {
                Some((n, e)) => {
                    if n <= u32::MAX as u64 {
                        f.ingest_sample_rate = Some(n as u32);
                        Some(e)
                    } else {
                        None
                    }
                },
                None => None,
            },
        }
    } else if bytes_eq_str(&kb, "vad_hold_ms") {
        match parse_str_value_null(bs, p4) {
            Some(e) => {
                f.vad_hold_ms = None;
                Some(e)
            },
            None => match parse_u64(bs, p4) {
                Some((n, e)) => {
                    f.vad_hold_ms = Some(n);
                    Some(e)
                },
                None => None,
            },
        }
    } else if bytes_eq_str(&kb, "vad_threshold_db") {
        match parse_str_value_null(bs, p4) {
            Some(e) => {
                f.vad_threshold_centidb = None;
                Some(e)
            },
            None => match parse_centi(bs, p4) {
                Some((v, e)) => {
                    f.vad_threshold_centidb = Some(v);
                    Some(e)
                },
                None => None,
            },
        }
    } else {
        match skip_scalar(bs, p4) {
            Some(e) => Some(e),
            None => None,
        }
    }
}

/// Matches the word `null` at `pos`.
fn parse_str_value_null(bs: &Vec<u8>, pos: usize) -> (r: Option<usize>)
    ensures
        match r {
            Some(e) => spec_expect(bs@, pos as int, null_bytes()) == Some(e as int) && pos < e
                <= bs@.len(),
            None => spec_expect(bs@, pos as int, null_bytes()) is None,
        },
{
    if pos < bs.len() && bs.len() - pos >= 4 && bs[pos] == 110 && bs[pos + 1] == 117 && bs[pos
        + 2] == 108 && bs[pos + 3] == 108 {
        proof {
            assert(bs@.subrange(pos as int, pos + 4) =~= null_bytes());
        }
        Some(pos + 4)
    } else {
        proof {
            if 0 <= pos && pos + 4 <= bs@.len() && bs@.subrange(pos as int, pos + 4)
                == null_bytes() {
                assert(bs@.subrange(pos as int, pos + 4)[0] == bs@[pos as int]);
                assert(bs@.subrange(pos as int, pos + 4)[1] == bs@[pos + 1]);
                assert(bs@.subrange(pos as int, pos + 4)[2] == bs@[pos + 2]);
                assert(bs@.subrange(pos as int, pos + 4)[3] == bs@[pos + 3]);
            }
        }
        None
    }
}

/// Reads a configuration reply. Every string field must be valid UTF-8;
/// otherwise, and on any malformed byte, the reply is refused.
pub fn parse_response(bs: &Vec<u8>) -> (r: Option<BridgeConfigResponse>)
    ensures
        match spec_parse_response(bs@) {
            Some(acc) => {
                if resp_acc_ok(acc) {
                    match r {
                        Some(resp) => resp@ == resp_of_acc(acc),
                        None => false,
                    }
                } else {
                    r is None
                }
            },
            None => r is None,
        },
{
    let p0 = skip_ws(bs, 0);
    if !(p0 < bs.len() && bs[p0] == 123) {
        return None;
    }
    let mut f = RespFields {
        assigned_input_id: None,
        ingest_ws_url: None,
        ingest_tcp_host: None,
        ingest_tcp_port: None,
        capture_device: None,
        vad_threshold_centidb: None,
        vad_hold_ms: None,
        ingest_sample_rate: None,
        ingest_resampler: None,
    };
    let mut cur: usize = p0 + 1;
    let ghost mut fuel: nat = (bs@.len() + 1) as nat;
    let mut done = false;
    loop
        invariant
            cur <= bs@.len(),
            !done ==> fuel >= bs@.len() - cur + 1,
            !done ==> spec_parse_response(bs@) == spec_parse_resp_at(bs@, cur as int, f@, fuel),
            done ==> spec_parse_response(bs@) == Some(f@),
        ensures
            done,
        decreases bs@.len() - cur + (if done {
            0int
        } else {
            1int
        }),
    {
        if done {
            break;
        }
        let p = skip_ws(bs, cur);
        if p < bs.len() && bs[p] == 125 {
            done = true;
            continue;
        }
        let e = match parse_resp_field(bs, p, &mut f) {
            Some(e) => e,
            None => {
                return None;
            },
        };
        let q = skip_ws(bs, e);
        if q < bs.len() && bs[q] == 44 {
            proof {
                fuel = (fuel - 1) as nat;
            }
            cur = q + 1;
        } else if q < bs.len() && bs[q] == 125 {
            done = true;
            proof {
                if cur < q + 1 {
                }
            }
            cur = q;
        } else {
            return None;
        }
    }
    let RespFields {
        assigned_input_id,
        ingest_ws_url,
        ingest_tcp_host,
        ingest_tcp_port,
        capture_device,
        vad_threshold_centidb,
        vad_hold_ms,
        ingest_sample_rate,
        ingest_resampler,
    } = f;
    let ghost acc_done = RespAcc {
        assigned_input_id: match &assigned_input_id {
            Some(v) => Some(v@),
            None => None,
        },
        ingest_ws_url: match &ingest_ws_url {
            Some(v) => Some(v@),
            None => None,
        },
        ingest_tcp_host: match &ingest_tcp_host {
            Some(v) => Some(v@),
            None => None,
        },
        ingest_tcp_port,
        capture_device: match &capture_device {
            Some(v) => Some(v@),
            None => None,
        },
        vad_threshold_centidb,
        vad_hold_ms,
        ingest_sample_rate,
        ingest_resampler: match &ingest_resampler {
            Some(v) => Some(v@),
            None => None,
        },
    };
    let assigned_s = match opt_bytes_to_string(assigned_input_id) {
        Ok(v) => v,
        Err(()) => {
            return None;
        },
    };
    let ws_s = match opt_bytes_to_string(ingest_ws_url) {
        Ok(v) => v,
        Err(()) => {
            return None;
        },
    };
    let host_s = match opt_bytes_to_string(ingest_tcp_host) {
        Ok(v) => v,
        Err(()) => {
            return None;
        },
    };
    let dev_s = match opt_bytes_to_string(capture_device) {
        Ok(v) => v,
        Err(()) => {
            return None;
        },
    };
    let res_s = match opt_bytes_to_string(ingest_resampler) {
        Ok(v) => v,
        Err(()) => {
            return None;
        },
    };
    let resp = BridgeConfigResponse {
        assigned_input_id: assigned_s,
        ingest_ws_url: ws_s,
        ingest_tcp_host: host_s,
        ingest_tcp_port,
        capture_device: dev_s,
        vad_threshold_centidb,
        vad_hold_ms,
        ingest_sample_rate,
        ingest_resampler: res_s,
    };
    proof {
        assert(resp_acc_ok(acc_done));
        assert(resp@ =~= resp_of_acc(acc_done));
    }
    Some(resp)
}

/// The mathematical image of one capture device.
#[verifier::ext_equal]
pub ghost struct CaptureDeviceInfoV {
    pub id: Seq<char>,
    pub name: Seq<char>,
    pub channels: u16,
    pub sample_rates: Seq<u32>,
}

impl View for CaptureDeviceInfo {
    type V = CaptureDeviceInfoV;

    open spec fn view(&self) -> CaptureDeviceInfoV {
        CaptureDeviceInfoV {
            id: self.id@,
            name: self.name@,
            channels: self.channels,
            sample_rates: self.sample_rates@,
        }
    }
}

/// The mathematical image of a registration body.
#[verifier::ext_equal]
pub ghost struct BridgeRegisterRequestV {
    pub bridge_id: Seq<char>,
    pub hostname: Seq<char>,
    pub version: Seq<char>,
    pub ip: Seq<char>,
    pub mac: Seq<char>,
    pub capture_devices: Seq<CaptureDeviceInfoV>,
}

impl View for BridgeRegisterRequest {
    type V = BridgeRegisterRequestV;

    open spec fn view(&self) -> BridgeRegisterRequestV {
        BridgeRegisterRequestV {
            bridge_id: self.bridge_id@,
            hostname: self.hostname@,
            version: self.version@,
            ip: self.ip@,
            mac: self.mac@,
            capture_devices: self.capture_devices@.map_values(|d: CaptureDeviceInfo| d@),
        }
    }
}

/// A key written before its value: `"key":`.
pub open spec fn key_colon(k: Seq<u8>) -> Seq<u8> {
    crate::json::quoted(k) + seq![58u8]
}

/// A rate list's elements, comma-separated.
pub open spec fn rates_json(rs: Seq<u32>) -> Seq<u8>
    decreases rs.len(),
{
    if rs.len() == 0 {
        Seq::<u8>::empty()
    } else if rs.len() == 1 {
        crate::json::dec_bytes(rs[0] as u64)
    } else {
        crate::json::dec_bytes(rs[0] as u64) + seq![44u8] + rates_json(rs.drop_first())
    }
}

/// One device as an object of id, name, channels and rates.
pub open spec fn dev_json(d: CaptureDeviceInfoV) -> Seq<u8> {
    (seq![123u8] + key_colon("id".spec_bytes())) + (crate::json::quoted(
        vstd::utf8::encode_utf8(d.id),
    ) + ((seq![44u8] + key_colon("name".spec_bytes())) + (crate::json::quoted(
        vstd::utf8::encode_utf8(d.name),
    ) + ((seq![44u8] + key_colon("channels".spec_bytes())) + (crate::json::dec_bytes(
        d.channels as u64,
    ) + ((seq![44u8] + key_colon("sample_rates".spec_bytes()) + seq![91u8]) + ((rates_json(
        d.sample_rates,
    ) + seq![93u8]) + seq![125u8])))))))
}

/// A device list's elements, comma-separated.
pub open spec fn devs_json(ds: Seq<CaptureDeviceInfoV>) -> Seq<u8>
    decreases ds.len(),
{
    if ds.len() == 0 {
        Seq::<u8>::empty()
    } else if ds.len() == 1 {
        dev_json(ds[0])
    } else {
        dev_json(ds[0]) + seq![44u8] + devs_json(ds.drop_first())
    }
}

/// The registration body: identity fields and the device list, in one
/// object.
pub open spec fn register_json(r: BridgeRegisterRequestV) -> Seq<u8> {
    (seq![123u8] + key_colon("bridge_id".spec_bytes())) + (crate::json::quoted(
        vstd::utf8::encode_utf8(r.bridge_id),
    ) + ((seq![44u8] + key_colon("hostname".spec_bytes())) + (crate::json::quoted(
        vstd::utf8::encode_utf8(r.hostname),
    ) + ((seq![44u8] + key_colon("version".spec_bytes())) + (crate::json::quoted(
        vstd::utf8::encode_utf8(r.version),
    ) + ((seq![44u8] + key_colon("ip".spec_bytes())) + (crate::json::quoted(
        vstd::utf8::encode_utf8(r.ip),
    ) + ((seq![44u8] + key_colon("mac".spec_bytes())) + (crate::json::quoted(
        vstd::utf8::encode_utf8(r.mac),
    ) + ((seq![44u8] + key_colon("capture_devices".spec_bytes()) + seq![91u8]) + ((devs_json(
        r.capture_devices,
    ) + seq![93u8]) + seq![125u8])))))))))))
}

proof fn lemma_rates_json_push(rs: Seq<u32>, x: u32)
    ensures
        rates_json(rs.push(x)) =~= if rs.len() == 0 {
            crate::json::dec_bytes(x as u64)
        } else {
            rates_json(rs) + seq![44u8] + crate::json::dec_bytes(x as u64)
        },
    decreases rs.len(),
{
    if rs.len() == 0 {
        assert(rs.push(x).len() == 1);
        assert(rs.push(x)[0] == x);
    } else {
        assert(rs.push(x)[0] == rs[0]);
        assert(rs.push(x).drop_first() =~= rs.drop_first().push(x));
        lemma_rates_json_push(rs.drop_first(), x);
        if rs.len() == 1 {
            assert(rs.drop_first().len() == 0);
        }
    }
}

proof fn lemma_devs_json_push(ds: Seq<CaptureDeviceInfoV>, d: CaptureDeviceInfoV)
    ensures
        devs_json(ds.push(d)) =~= if ds.len() == 0 {
            dev_json(d)
        } else {
            devs_json(ds) + seq![44u8] + dev_json(d)
        },
    decreases ds.len(),
{
    if ds.len() == 0 {
        assert(ds.push(d).len() == 1);
        assert(ds.push(d)[0] == d);
    } else {
        assert(ds.push(d)[0] == ds[0]);
        assert(ds.push(d).drop_first() =~= ds.drop_first().push(d));
        lemma_devs_json_push(ds.drop_first(), d);
        if ds.len() == 1 {
            assert(ds.drop_first().len() == 0);
        }
    }
}

/// Appends `"key":`.
fn push_key(out: &mut Vec<u8>, key: &str)
    ensures
        final (out)@ == old(out)@ + key_colon(key.spec_bytes()),
{
    crate::json::push_quoted(out, key);
    out.push(58);
    proof {
        assert(final (out)@ =~= old(out)@ + key_colon(key.spec_bytes()));
    }
}

/// Appends one device object.
fn push_dev(out: &mut Vec<u8>, d: &CaptureDeviceInfo)
    ensures
        final (out)@ == old(out)@ + dev_json(d@),
{
    out.push(123);
    push_key(out, "id");
    crate::json::push_quoted(out, d.id.as_str());
    out.push(44);
    push_key(out, "name");
    crate::json::push_quoted(out, d.name.as_str());
    out.push(44);
    push_key(out, "channels");
    crate::json::push_u64(out, d.channels as u64);
    out.push(44);
    push_key(out, "sample_rates");
    out.push(91);
    let ghost mid = out@;
    let mut i: usize = 0;
    while i < d.sample_rates.len()
        invariant
            i <= d.sample_rates@.len(),
            out@ == mid + rates_json(d.sample_rates@.subrange(0, i as int)),
        decreases d.sample_rates@.len() - i,
    {
        let ghost pre = d.sample_rates@.subrange(0, i as int);
        if i > 0 {
            out.push(44);
        }
        crate::json::push_u64(out, d.sample_rates[i] as u64);
        proof {
            lemma_rates_json_push(pre, d.sample_rates@[i as int]);
            assert(d.sample_rates@.subrange(0, i + 1) =~= pre.push(d.sample_rates@[i as int]));
            if i == 0 {
                assert(out@ =~= mid + rates_json(d.sample_rates@.subrange(0, i + 1)));
            } else {
                assert(out@ =~= mid + rates_json(d.sample_rates@.subrange(0, i + 1)));
            }
        }
        i += 1;
    }
    out.push(93);
    out.push(125);
    proof {
        assert(d.sample_rates@.subrange(0, d.sample_rates@.len() as int) =~= d.sample_rates@);
        assert(final (out)@ =~= old(out)@ + dev_json(d@));
    }
}

/// Writes the registration body.
#[verifier::rlimit(100)]
pub fn emit_register(r: &BridgeRegisterRequest) -> (out: Vec<u8>)
    ensures
        out@ == register_json(r@),
{
    let mut out: Vec<u8> = Vec::new();
    out.push(123);
    push_key(&mut out, "bridge_id");
    crate::json::push_quoted(&mut out, r.bridge_id.as_str());
    out.push(44);
    push_key(&mut out, "hostname");
    crate::json::push_quoted(&mut out, r.hostname.as_str());
    out.push(44);
    push_key(&mut out, "version");
    crate::json::push_quoted(&mut out, r.version.as_str());
    out.push(44);
    push_key(&mut out, "ip");
    crate::json::push_quoted(&mut out, r.ip.as_str());
    out.push(44);
    push_key(&mut out, "mac");
    crate::json::push_quoted(&mut out, r.mac.as_str());
    out.push(44);
    push_key(&mut out, "capture_devices");
    out.push(91);
    let ghost mid = out@;
    let ghost dview = r.capture_devices@.map_values(|d: CaptureDeviceInfo| d@);
    let mut i: usize = 0;
    while i < r.capture_devices.len()
        invariant
            i <= r.capture_devices@.len(),
            dview == r.capture_devices@.map_values(|d: CaptureDeviceInfo| d@),
            out@ == mid + devs_json(dview.subrange(0, i as int)),
        decreases r.capture_devices@.len() - i,
    {
        let ghost pre = dview.subrange(0, i as int);
        if i > 0 {
            out.push(44);
        }
        push_dev(&mut out, &r.capture_devices[i]);
        proof {
            lemma_devs_json_push(pre, dview[i as int]);
            assert(dview.subrange(0, i + 1) =~= pre.push(dview[i as int]));
            assert(out@ =~= mid + devs_json(dview.subrange(0, i + 1)));
        }
        i += 1;
    }
    out.push(93);
    out.push(125);
    proof {
        assert(dview.subrange(0, dview.len() as int) =~= dview);
        assert(out@ =~= register_json(r@));
    }
    out
}

/// Bytes that stand for themselves inside a quoted string: no quote, no
/// backslash, no control byte.
pub open spec fn plain_bytes(s: Seq<u8>) -> bool {
    forall|i: int| 0 <= i < s.len() ==> 32 <= s[i] && s[i] != 34 && s[i] != 92
}

/// Escaping leaves plain bytes alone.
pub proof fn lemma_esc_plain(s: Seq<u8>)
    requires
        plain_bytes(s),
    ensures
        crate::json::esc_bytes(s) =~= s,
    decreases s.len(),
{
    if s.len() > 0 {
        assert(32 <= s[0] && s[0] != 34 && s[0] != 92);
        assert(crate::json::esc_byte(s[0]) =~= seq![s[0]]);
        assert(plain_bytes(s.drop_first()));
        lemma_esc_plain(s.drop_first());
        assert(crate::json::esc_bytes(s) =~= seq![s[0]] + s.drop_first());
        assert(seq![s[0]] + s.drop_first() =~= s);
    }
}

/// One device read back: raw string bytes and parsed scalars.
#[verifier::ext_equal]
pub ghost struct DevAcc {
    pub id: Seq<u8>,
    pub name: Seq<u8>,
    pub channels: u16,
    pub sample_rates: Seq<u32>,
}

/// A registration body read back.
#[verifier::ext_equal]
pub ghost struct RegAcc {
    pub bridge_id: Seq<u8>,
    pub hostname: Seq<u8>,
    pub version: Seq<u8>,
    pub ip: Seq<u8>,
    pub mac: Seq<u8>,
    pub capture_devices: Seq<DevAcc>,
}

/// A rate list's elements from `pos` (just past `[` or a comma) up to its
/// closing bracket.
pub open spec fn spec_parse_rates_at(bs: Seq<u8>, pos: int, acc: Seq<u32>, fuel: nat) -> Option<
    (Seq<u32>, int),
>
    decreases fuel,
{
    if fuel == 0 {
        None
    } else if 0 <= pos < bs.len() && bs[pos] == 93 {
        Some((acc, pos + 1))
    } else {
        match spec_parse_u64(bs, pos) {
            Some((n, e)) => if n <= u32::MAX {
                if e < bs.len() && bs[e] == 44 {
                    spec_parse_rates_at(bs, e + 1, acc.push(n as u32), (fuel - 1) as nat)
                } else if e < bs.len() && bs[e] == 93 {
                    Some((acc.push(n as u32), e + 1))
                } else {
                    None
                }
            } else {
                None
            },
            None => None,
        }
    }
}

/// One device object at `pos`, in the exact form the emitter writes.
pub open spec fn spec_parse_dev(bs: Seq<u8>, pos: int) -> Option<(DevAcc, int)> {
    match spec_expect(bs, pos, seq![123u8] + key_colon("id".spec_bytes())) {
        Some(p1) => match spec_parse_quoted(bs, p1) {
            Some((id, p2)) => match spec_expect(
                bs,
                p2,
                seq![44u8] + key_colon("name".spec_bytes()),
            ) {
                Some(p3) => match spec_parse_quoted(bs, p3) {
                    Some((name, p4)) => match spec_expect(
                        bs,
                        p4,
                        seq![44u8] + key_colon("channels".spec_bytes()),
                    ) {
                        Some(p5) => match spec_parse_u64(bs, p5) {
                            Some((ch, p6)) => if ch <= u16::MAX {
                                match spec_expect(
                                    bs,
                                    p6,
                                    seq![44u8] + key_colon("sample_rates".spec_bytes()) + seq![
                                        91u8,
                                    ],
                                ) {
                                    Some(p7) => match spec_parse_rates_at(
                                        bs,
                                        p7,
                                        Seq::<u32>::empty(),
                                        (bs.len() + 1) as nat,
                                    ) {
                                        Some((rs, p8)) => if p8 < bs.len() && bs[p8] == 125 {
                                            Some(
                                                (
                                                    DevAcc {
                                                        id,
                                                        name,
                                                        channels: ch as u16,
                                                        sample_rates: rs,
                                                    },
                                                    p8 + 1,
                                                ),
                                            )
                                        } else {
                                            None
                                        },
                                        None => None,
                                    },
                                    None => None,
                                }
                            } else {
                                None
                            },
                            None => None,
                        },
                        None => None,
                    },
                    None => None,
                },
                None => None,
            },
            None => None,
        },
        None => None,
    }
}

/// The device list's elements from `pos` up to its closing bracket.
pub open spec fn spec_parse_devs_at(bs: Seq<u8>, pos: int, acc: Seq<DevAcc>, fuel: nat) -> Option<
    (Seq<DevAcc>, int),
>
    decreases fuel,
{
    if fuel == 0 {
        None
    } else if 0 <= pos < bs.len() && bs[pos] == 93 {
        Some((acc, pos + 1))
    } else {
        match spec_parse_dev(bs, pos) {
            Some((d, e)) => {
                if e < bs.len() && bs[e] == 44 {
                    spec_parse_devs_at(bs, e + 1, acc.push(d), (fuel - 1) as nat)
                } else if e < bs.len() && bs[e] == 93 {
                    Some((acc.push(d), e + 1))
                } else {
                    None
                }
            },
            None => None,
        }
    }
}

/// A registration body in the exact form the emitter writes, read whole.
pub open spec fn spec_parse_register(bs: Seq<u8>) -> Option<RegAcc> {
    match spec_expect(bs, 0, seq![123u8] + key_colon("bridge_id".spec_bytes())) {
        Some(p1) => match spec_parse_quoted(bs, p1) {
            Some((bridge_id, p2)) => match spec_expect(
                bs,
                p2,
                seq![44u8] + key_colon("hostname".spec_bytes()),
            ) {
                Some(p3) => match spec_parse_quoted(bs, p3) {
                    Some((hostname, p4)) => match spec_expect(
                        bs,
                        p4,
                        seq![44u8] + key_colon("version".spec_bytes()),
                    ) {
                        Some(p5) => match spec_parse_quoted(bs, p5) {
                            Some((version, p6)) => match spec_expect(
                                bs,
                                p6,
                                seq![44u8] + key_colon("ip".spec_bytes()),
                            ) {
                                Some(p7) => match spec_parse_quoted(bs, p7) {
                                    Some((ip, p8)) => match spec_expect(
                                        bs,
                                        p8,
                                        seq![44u8] + key_colon("mac".spec_bytes()),
                                    ) {
                                        Some(p9) => match spec_parse_quoted(bs, p9) {
                                            Some((mac, p10)) => match spec_expect(
                                                bs,
                                                p10,
                                                seq![44u8] + key_colon(
                                                    "capture_devices".spec_bytes(),
                                                ) + seq![91u8],
                                            ) {
                                                Some(p11) => match spec_parse_devs_at(
                                                    bs,
                                                    p11,
                                                    Seq::<DevAcc>::empty(),
                                                    (bs.len() + 1) as nat,
                                                ) {
                                                    Some((ds, p12)) => if p12 + 1 == bs.len()
                                                        && bs[p12] == 125 {
                                                        Some(
                                                            RegAcc {
                                                                bridge_id,
                                                                hostname,
                                                                version,
                                                                ip,
                                                                mac,
                                                                capture_devices: ds,
                                                            },
                                                        )
                                                    } else {
                                                        None
                                                    },
                                                    None => None,
                                                },
                                                None => None,
                                            },
                                            None => None,
                                        },
                                        None => None,
                                    },
                                    None => None,
                                },
                                None => None,
                            },
                            None => None,
                        },
                        None => None,
                    },
                    None => None,
                },
                None => None,
            },
            None => None,
        },
        None => None,
    }
}

/// The raw bytes one device leaves in the parser.
pub open spec fn dev_acc_of(d: CaptureDeviceInfoV) -> DevAcc {
    DevAcc {
        id: vstd::utf8::encode_utf8(d.id),
        name: vstd::utf8::encode_utf8(d.name),
        channels: d.channels,
        sample_rates: d.sample_rates,
    }
}

/// The raw bytes a registration body leaves in the parser.
pub open spec fn reg_acc_of(r: BridgeRegisterRequestV) -> RegAcc {
    RegAcc {
        bridge_id: vstd::utf8::encode_utf8(r.bridge_id),
        hostname: vstd::utf8::encode_utf8(r.hostname),
        version: vstd::utf8::encode_utf8(r.version),
        ip: vstd::utf8::encode_utf8(r.ip),
        mac: vstd::utf8::encode_utf8(r.mac),
        capture_devices: r.capture_devices.map_values(|d: CaptureDeviceInfoV| dev_acc_of(d)),
    }
}

/// Whether every string the parser gathered is valid UTF-8.
pub open spec fn reg_acc_ok(a: RegAcc) -> bool {
    &&& valid_utf8(a.bridge_id)
    &&& valid_utf8(a.hostname)
    &&& valid_utf8(a.version)
    &&& valid_utf8(a.ip)
    &&& valid_utf8(a.mac)
    &&& forall|i: int|
        0 <= i < a.capture_devices.len() ==> valid_utf8(#[trigger] a.capture_devices[i].id)
            && valid_utf8(a.capture_devices[i].name)
}

/// The registration the gathered bytes decode to.
pub open spec fn reg_of_acc(a: RegAcc) -> BridgeRegisterRequestV
    recommends
        reg_acc_ok(a),
{
    BridgeRegisterRequestV {
        bridge_id: decode_utf8(a.bridge_id),
        hostname: decode_utf8(a.hostname),
        version: decode_utf8(a.version),
        ip: decode_utf8(a.ip),
        mac: decode_utf8(a.mac),
        capture_devices: a.capture_devices.map_values(
            |d: DevAcc| CaptureDeviceInfoV {
                id: decode_utf8(d.id),
                name: decode_utf8(d.name),
                channels: d.channels,
                sample_rates: d.sample_rates,
            },
        ),
    }
}

/// Splitting a known concatenation gives back its parts.
proof fn lemma_peel(bs: Seq<u8>, pos: int, a: Seq<u8>, b: Seq<u8>)
    requires
        0 <= pos,
        pos + a.len() + b.len() <= bs.len(),
        bs.subrange(pos, pos + a.len() + b.len()) == a + b,
    ensures
        bs.subrange(pos, pos + a.len()) == a,
        bs.subrange(pos + a.len(), pos + a.len() + b.len()) == b,
{
    assert(bs.subrange(pos, pos + a.len()) =~= a) by {
        assert forall|k: int| 0 <= k < a.len() implies bs.subrange(pos, pos + a.len())[k]
            == a[k] by {
            assert(bs.subrange(pos, pos + a.len() + b.len())[k] == bs[pos + k]);
            assert((a + b)[k] == a[k]);
        }
    }
    assert(bs.subrange(pos + a.len(), pos + a.len() + b.len()) =~= b) by {
        assert forall|k: int| 0 <= k < b.len() implies bs.subrange(
            pos + a.len(),
            pos + a.len() + b.len(),
        )[k] == b[k] by {
            assert(bs.subrange(pos, pos + a.len() + b.len())[a.len() + k] == bs[pos + a.len()
                + k]);
            assert((a + b)[a.len() + k] == b[k]);
        }
    }
}

proof fn lemma_rates_json_len(rs: Seq<u32>)
    ensures
        rates_json(rs).len() >= rs.len(),
    decreases rs.len(),
{
    if rs.len() > 1 {
        lemma_rates_json_len(rs.drop_first());
    }
}

proof fn lemma_devs_json_len(ds: Seq<CaptureDeviceInfoV>)
    ensures
        devs_json(ds).len() >= ds.len(),
    decreases ds.len(),
{
    if ds.len() > 1 {
        lemma_devs_json_len(ds.drop_first());
    }
}

/// A rate list written at `pos` and closed with `]` reads back as itself.
proof fn lemma_parse_rates_round(bs: Seq<u8>, pos: int, rs: Seq<u32>, acc: Seq<u32>, fuel: nat)
    requires
        0 <= pos,
        pos + rates_json(rs).len() + 1 <= bs.len(),
        bs.subrange(pos, pos + rates_json(rs).len() + 1) == rates_json(rs) + seq![93u8],
        fuel >= rs.len() + 1,
    ensures
        spec_parse_rates_at(bs, pos, acc, fuel) == Some(
            (acc + rs, pos + rates_json(rs).len() + 1),
        ),
    decreases rs.len(),
{
    if rs.len() == 0 {
        assert(bs[pos] == 93) by {
            assert(bs.subrange(pos, pos + 1)[0] == bs[pos]);
            assert((rates_json(rs) + seq![93u8])[0] == 93u8);
        }
        assert(acc + rs =~= acc);
    } else {
        let w = crate::json::dec_bytes(rs[0] as u64);
        crate::json::lemma_dec_bytes_digits(rs[0] as u64);
        if rs.len() == 1 {
            assert(rates_json(rs) == w);
            lemma_peel(bs, pos, w, seq![93u8]);
            assert(bs[pos + w.len()] == 93) by {
                assert(bs.subrange(pos + w.len(), pos + w.len() + 1)[0] == bs[pos + w.len()]);
            }
            crate::json::lemma_parse_u64_round(bs, pos, rs[0] as u64);
            assert(bs[pos] == w[0]) by {
                assert(bs.subrange(pos, pos + w.len() as int)[0] == bs[pos]);
            }
            assert(bs[pos] != 93 && is_digit_byte(bs[pos]));
            assert(acc.push(rs[0]) =~= acc + rs);
        } else {
            let rest = rates_json(rs.drop_first());
            assert(rates_json(rs) == w + seq![44u8] + rest);
            assert(rates_json(rs) + seq![93u8] =~= w + (seq![44u8] + (rest + seq![93u8])));
            assert(bs.subrange(pos, pos + w.len() + (seq![44u8] + (rest + seq![93u8])).len())
                == w + (seq![44u8] + (rest + seq![93u8]))) by {
                assert(pos + w.len() + (seq![44u8] + (rest + seq![93u8])).len() == pos
                    + rates_json(rs).len() + 1);
            }
            lemma_peel(bs, pos, w, seq![44u8] + (rest + seq![93u8]));
            lemma_peel(bs, pos + w.len(), seq![44u8], rest + seq![93u8]);
            assert(bs[pos + w.len()] == 44) by {
                assert(bs.subrange(pos + w.len(), pos + w.len() + 1)[0] == bs[pos + w.len()]);
            }
            crate::json::lemma_parse_u64_round(bs, pos, rs[0] as u64);
            assert(bs[pos] == w[0]) by {
                assert(bs.subrange(pos, pos + w.len() as int)[0] == bs[pos]);
            }
            assert(bs[pos] != 93 && is_digit_byte(bs[pos]));
            lemma_parse_rates_round(
                bs,
                pos + w.len() + 1,
                rs.drop_first(),
                acc.push(rs[0]),
                (fuel - 1) as nat,
            );
            assert(acc.push(rs[0]) + rs.drop_first() =~= acc + rs);
        }
    }
}

/// A device object written at `pos` reads back as itself.
#[verifier::rlimit(100)]
proof fn lemma_parse_dev_round(bs: Seq<u8>, pos: int, d: CaptureDeviceInfoV)
    requires
        0 <= pos,
        pos + dev_json(d).len() <= bs.len(),
        bs.subrange(pos, pos + dev_json(d).len()) == dev_json(d),
    ensures
        spec_parse_dev(bs, pos) == Some((dev_acc_of(d), pos + dev_json(d).len())),
{
    let g1 = seq![123u8] + key_colon("id".spec_bytes());
    let g2 = crate::json::quoted(vstd::utf8::encode_utf8(d.id));
    let g3 = seq![44u8] + key_colon("name".spec_bytes());
    let g4 = crate::json::quoted(vstd::utf8::encode_utf8(d.name));
    let g5 = seq![44u8] + key_colon("channels".spec_bytes());
    let g6 = crate::json::dec_bytes(d.channels as u64);
    let g7 = seq![44u8] + key_colon("sample_rates".spec_bytes()) + seq![91u8];
    let g8 = rates_json(d.sample_rates) + seq![93u8];
    let g9 = seq![125u8];
    let whole = dev_json(d);
    assert(whole =~= g1 + (g2 + (g3 + (g4 + (g5 + (g6 + (g7 + (g8 + g9))))))));
    let r8 = g8 + g9;
    let r7 = g7 + r8;
    let r6 = g6 + r7;
    let r5 = g5 + r6;
    let r4 = g4 + r5;
    let r3 = g3 + r4;
    let r2 = g2 + r3;
    assert(whole =~= g1 + r2);
    assert(bs.subrange(pos, pos + g1.len() + r2.len()) == g1 + r2) by {
        assert(pos + g1.len() + r2.len() == pos + whole.len());
    }
    lemma_peel(bs, pos, g1, r2);
    crate::json::lemma_expect_at(bs, pos, g1);
    let p1 = pos + g1.len();
    assert(r2 =~= g2 + r3);
    lemma_peel(bs, p1, g2, r3);
    crate::json::lemma_parse_quoted_round(bs, p1, vstd::utf8::encode_utf8(d.id));
    let p2 = p1 + g2.len();
    assert(r3 =~= g3 + r4);
    lemma_peel(bs, p2, g3, r4);
    crate::json::lemma_expect_at(bs, p2, g3);
    let p3 = p2 + g3.len();
    assert(r4 =~= g4 + r5);
    lemma_peel(bs, p3, g4, r5);
    crate::json::lemma_parse_quoted_round(bs, p3, vstd::utf8::encode_utf8(d.name));
    let p4 = p3 + g4.len();
    assert(r5 =~= g5 + r6);
    lemma_peel(bs, p4, g5, r6);
    crate::json::lemma_expect_at(bs, p4, g5);
    let p5 = p4 + g5.len();
    assert(r6 =~= g6 + r7);
    lemma_peel(bs, p5, g6, r7);
    let p6 = p5 + g6.len();
    assert(bs[p6] == 44) by {
        assert(r7[0] == 44u8);
        assert(bs.subrange(p6, p6 + r7.len() as int)[0] == bs[p6]);
    }
    crate::json::lemma_parse_u64_round(bs, p5, d.channels as u64);
    assert(r7 =~= g7 + r8);
    lemma_peel(bs, p6, g7, r8);
    crate::json::lemma_expect_at(bs, p6, g7);
    let p7 = p6 + g7.len();
    assert(r8 =~= g8 + g9);
    lemma_peel(bs, p7, g8, g9);
    lemma_rates_json_len(d.sample_rates);
    lemma_parse_rates_round(
        bs,
        p7,
        d.sample_rates,
        Seq::<u32>::empty(),
        (bs.len() + 1) as nat,
    );
    assert(Seq::<u32>::empty() + d.sample_rates =~= d.sample_rates);
    let p8 = p7 + g8.len();
    assert(bs[p8] == 125) by {
        assert(bs.subrange(p8, p8 + 1)[0] == bs[p8]);
        assert(g9[0] == 125u8);
    }
}

/// A device list written at `pos` and closed with `]` reads back as itself.
proof fn lemma_parse_devs_round(
    bs: Seq<u8>,
    pos: int,
    ds: Seq<CaptureDeviceInfoV>,
    acc: Seq<DevAcc>,
    fuel: nat,
)
    requires
        0 <= pos,
        pos + devs_json(ds).len() + 1 <= bs.len(),
        bs.subrange(pos, pos + devs_json(ds).len() + 1) == devs_json(ds) + seq![93u8],
        fuel >= ds.len() + 1,
    ensures
        spec_parse_devs_at(bs, pos, acc, fuel) == Some(
            (
                acc + ds.map_values(|d: CaptureDeviceInfoV| dev_acc_of(d)),
                pos + devs_json(ds).len() + 1,
            ),
        ),
    decreases ds.len(),
{
    let m = ds.map_values(|d: CaptureDeviceInfoV| dev_acc_of(d));
    if ds.len() == 0 {
        assert(bs[pos] == 93) by {
            assert(bs.subrange(pos, pos + 1)[0] == bs[pos]);
            assert((devs_json(ds) + seq![93u8])[0] == 93u8);
        }
        assert(acc + m =~= acc);
    } else {
        let w = dev_json(ds[0]);
        if ds.len() == 1 {
            assert(devs_json(ds) == w);
            lemma_peel(bs, pos, w, seq![93u8]);
            assert(bs[pos + w.len()] == 93) by {
                assert(bs.subrange(pos + w.len(), pos + w.len() + 1)[0] == bs[pos + w.len()]);
            }
            lemma_parse_dev_round(bs, pos, ds[0]);
            assert(bs[pos] == 123) by {
                assert(bs.subrange(pos, pos + w.len() as int)[0] == bs[pos]);
                assert(w[0] == 123u8);
            }
            assert(acc.push(dev_acc_of(ds[0])) =~= acc + m);
        } else {
            let rest = devs_json(ds.drop_first());
            assert(devs_json(ds) == w + seq![44u8] + rest);
            assert(devs_json(ds) + seq![93u8] =~= w + (seq![44u8] + (rest + seq![93u8])));
            assert(bs.subrange(pos, pos + w.len() + (seq![44u8] + (rest + seq![93u8])).len())
                == w + (seq![44u8] + (rest + seq![93u8]))) by {
                assert(pos + w.len() + (seq![44u8] + (rest + seq![93u8])).len() == pos
                    + devs_json(ds).len() + 1);
            }
            lemma_peel(bs, pos, w, seq![44u8] + (rest + seq![93u8]));
            lemma_peel(bs, pos + w.len(), seq![44u8], rest + seq![93u8]);
            assert(bs[pos + w.len()] == 44) by {
                assert(bs.subrange(pos + w.len(), pos + w.len() + 1)[0] == bs[pos + w.len()]);
            }
            lemma_parse_dev_round(bs, pos, ds[0]);
            assert(bs[pos] == 123) by {
                assert(bs.subrange(pos, pos + w.len() as int)[0] == bs[pos]);
                assert(w[0] == 123u8);
            }
            lemma_parse_devs_round(
                bs,
                pos + w.len() + 1,
                ds.drop_first(),
                acc.push(dev_acc_of(ds[0])),
                (fuel - 1) as nat,
            );
            assert(acc.push(dev_acc_of(ds[0])) + ds.drop_first().map_values(
                |d: CaptureDeviceInfoV| dev_acc_of(d),
            ) =~= acc + m);
        }
    }
}

/// One `"key":"value"` step: the leading group matches, the value reads
/// back, and the rest lies just past them.
proof fn lemma_key_value_at(bs: Seq<u8>, pos: int, g: Seq<u8>, v: Seq<u8>, rest: Seq<u8>)
    requires
        0 <= pos,
        pos + g.len() + crate::json::quoted(v).len() + rest.len() <= bs.len(),
        bs.subrange(pos, pos + g.len() + crate::json::quoted(v).len() + rest.len()) == g + (
        crate::json::quoted(v) + rest),
    ensures
        spec_expect(bs, pos, g) == Some(pos + g.len()),
        spec_parse_quoted(bs, pos + g.len()) == Some(
            (v, pos + g.len() + crate::json::quoted(v).len()),
        ),
        bs.subrange(
            pos + g.len() + crate::json::quoted(v).len(),
            pos + g.len() + crate::json::quoted(v).len() + rest.len(),
        ) == rest,
{
    lemma_peel(bs, pos, g, crate::json::quoted(v) + rest);
    crate::json::lemma_expect_at(bs, pos, g);
    lemma_peel(bs, pos + g.len(), crate::json::quoted(v), rest);
    crate::json::lemma_parse_quoted_round(bs, pos + g.len(), v);
}

/// The five identity fields of a written registration body parse in
/// sequence; afterwards the buffer holds the device list's group.
#[verifier::rlimit(100)]
#[verifier::spinoff_prover]
proof fn lemma_register_head(r: BridgeRegisterRequestV)
    ensures
        ({
            let bs = register_json(r);
            let g1 = seq![123u8] + key_colon("bridge_id".spec_bytes());
            let g2 = crate::json::quoted(vstd::utf8::encode_utf8(r.bridge_id));
            let g3 = seq![44u8] + key_colon("hostname".spec_bytes());
            let g4 = crate::json::quoted(vstd::utf8::encode_utf8(r.hostname));
            let g5 = seq![44u8] + key_colon("version".spec_bytes());
            let g6 = crate::json::quoted(vstd::utf8::encode_utf8(r.version));
            let g7 = seq![44u8] + key_colon("ip".spec_bytes());
            let g8 = crate::json::quoted(vstd::utf8::encode_utf8(r.ip));
            let g9 = seq![44u8] + key_colon("mac".spec_bytes());
            let g10 = crate::json::quoted(vstd::utf8::encode_utf8(r.mac));
            let g11 = seq![44u8] + key_colon("capture_devices".spec_bytes()) + seq![91u8];
            let g12 = devs_json(r.capture_devices) + seq![93u8];
            let g13 = seq![125u8];
            let p1 = g1.len() as int;
            let p2 = p1 + g2.len();
            let p3 = p2 + g3.len();
            let p4 = p3 + g4.len();
            let p5 = p4 + g5.len();
            let p6 = p5 + g6.len();
            let p7 = p6 + g7.len();
            let p8 = p7 + g8.len();
            let p9 = p8 + g9.len();
            let p10 = p9 + g10.len();
            &&& spec_expect(bs, 0, g1) == Some(p1)
            &&& spec_parse_quoted(bs, p1) == Some((vstd::utf8::encode_utf8(r.bridge_id), p2))
            &&& spec_expect(bs, p2, g3) == Some(p3)
            &&& spec_parse_quoted(bs, p3) == Some((vstd::utf8::encode_utf8(r.hostname), p4))
            &&& spec_expect(bs, p4, g5) == Some(p5)
            &&& spec_parse_quoted(bs, p5) == Some((vstd::utf8::encode_utf8(r.version), p6))
            &&& spec_expect(bs, p6, g7) == Some(p7)
            &&& spec_parse_quoted(bs, p7) == Some((vstd::utf8::encode_utf8(r.ip), p8))
            &&& spec_expect(bs, p8, g9) == Some(p9)
            &&& spec_parse_quoted(bs, p9) == Some((vstd::utf8::encode_utf8(r.mac), p10))
            &&& p10 + (g11 + (g12 + g13)).len() == bs.len()
            &&& bs.subrange(p10, bs.len() as int) == g11 + (g12 + g13)
        }),
{
    let bs = register_json(r);
    let g1 = seq![123u8] + key_colon("bridge_id".spec_bytes());
    let g2 = crate::json::quoted(vstd::utf8::encode_utf8(r.bridge_id));
    let g3 = seq![44u8] + key_colon("hostname".spec_bytes());
    let g4 = crate::json::quoted(vstd::utf8::encode_utf8(r.hostname));
    let g5 = seq![44u8] + key_colon("version".spec_bytes());
    let g6 = crate::json::quoted(vstd::utf8::encode_utf8(r.version));
    let g7 = seq![44u8] + key_colon("ip".spec_bytes());
    let g8 = crate::json::quoted(vstd::utf8::encode_utf8(r.ip));
    let g9 = seq![44u8] + key_colon("mac".spec_bytes());
    let g10 = crate::json::quoted(vstd::utf8::encode_utf8(r.mac));
    let g11 = seq![44u8] + key_colon("capture_devices".spec_bytes()) + seq![91u8];
    let g12 = devs_json(r.capture_devices) + seq![93u8];
    let g13 = seq![125u8];
    let r11 = g11 + (g12 + g13);
    let r9 = g9 + (g10 + r11);
    let r7 = g7 + (g8 + r9);
    let r5 = g5 + (g6 + r7);
    let r3 = g3 + (g4 + r5);
    assert(bs.subrange(0, bs.len() as int) =~= bs);
    assert(bs.subrange(0, (g1.len() + g2.len() + r3.len()) as int) == g1 + (g2 + r3)) by {
        assert(g1.len() + g2.len() + r3.len() == bs.len());
    }
    lemma_key_value_at(bs, 0, g1, vstd::utf8::encode_utf8(r.bridge_id), r3);
    let p1 = g1.len() as int;
    let p2 = p1 + g2.len();
    lemma_key_value_at(bs, p2, g3, vstd::utf8::encode_utf8(r.hostname), r5);
    let p3 = p2 + g3.len();
    let p4 = p3 + g4.len();
    lemma_key_value_at(bs, p4, g5, vstd::utf8::encode_utf8(r.version), r7);
    let p5 = p4 + g5.len();
    let p6 = p5 + g6.len();
    lemma_key_value_at(bs, p6, g7, vstd::utf8::encode_utf8(r.ip), r9);
    let p7 = p6 + g7.len();
    let p8 = p7 + g8.len();
    lemma_key_value_at(bs, p8, g9, vstd::utf8::encode_utf8(r.mac), r11);
    let p9 = p8 + g9.len();
    let p10 = p9 + g10.len();
    assert(bs.subrange(p10, bs.len() as int) == r11) by {
        assert(p10 + r11.len() == bs.len());
    }
}

/// The bytes a written body gathers decode back to the body: validity and
/// decoding of every string field.
proof fn lemma_register_acc(r: BridgeRegisterRequestV)
    ensures
        reg_acc_ok(reg_acc_of(r)),
        reg_of_acc(reg_acc_of(r)) == r,
{
    let m = r.capture_devices.map_values(|d: CaptureDeviceInfoV| dev_acc_of(d));
    vstd::utf8::encode_utf8_valid_utf8(r.bridge_id);
    vstd::utf8::encode_utf8_valid_utf8(r.hostname);
    vstd::utf8::encode_utf8_valid_utf8(r.version);
    vstd::utf8::encode_utf8_valid_utf8(r.ip);
    vstd::utf8::encode_utf8_valid_utf8(r.mac);
    vstd::utf8::encode_utf8_decode_utf8(r.bridge_id);
    vstd::utf8::encode_utf8_decode_utf8(r.hostname);
    vstd::utf8::encode_utf8_decode_utf8(r.version);
    vstd::utf8::encode_utf8_decode_utf8(r.ip);
    vstd::utf8::encode_utf8_decode_utf8(r.mac);
    assert forall|i: int| 0 <= i < m.len() implies valid_utf8(#[trigger] m[i].id) && valid_utf8(
        m[i].name,
    ) by {
        vstd::utf8::encode_utf8_valid_utf8(r.capture_devices[i].id);
        vstd::utf8::encode_utf8_valid_utf8(r.capture_devices[i].name);
    }
    assert(reg_of_acc(reg_acc_of(r)) =~= r) by {
        assert forall|i: int| 0 <= i < m.len() implies reg_of_acc(reg_acc_of(r)).capture_devices[i]
            == r.capture_devices[i] by {
            vstd::utf8::encode_utf8_decode_utf8(r.capture_devices[i].id);
            vstd::utf8::encode_utf8_decode_utf8(r.capture_devices[i].name);
            assert(reg_of_acc(reg_acc_of(r)).capture_devices[i] =~= r.capture_devices[i]);
        }
    }
}

/// Writing a registration body and reading it back gives the body again:
/// the registration codec round-trips.
#[verifier::rlimit(100)]
pub proof fn lemma_register_round_trip(r: BridgeRegisterRequestV)
    ensures
        spec_parse_register(register_json(r)) == Some(reg_acc_of(r)),
        reg_acc_ok(reg_acc_of(r)),
        reg_of_acc(reg_acc_of(r)) == r,
{
    lemma_register_head(r);
    lemma_register_acc(r);
    let bs = register_json(r);
    let g1 = seq![123u8] + key_colon("bridge_id".spec_bytes());
    let g2 = crate::json::quoted(vstd::utf8::encode_utf8(r.bridge_id));
    let g3 = seq![44u8] + key_colon("hostname".spec_bytes());
    let g4 = crate::json::quoted(vstd::utf8::encode_utf8(r.hostname));
    let g5 = seq![44u8] + key_colon("version".spec_bytes());
    let g6 = crate::json::quoted(vstd::utf8::encode_utf8(r.version));
    let g7 = seq![44u8] + key_colon("ip".spec_bytes());
    let g8 = crate::json::quoted(vstd::utf8::encode_utf8(r.ip));
    let g9 = seq![44u8] + key_colon("mac".spec_bytes());
    let g10 = crate::json::quoted(vstd::utf8::encode_utf8(r.mac));
    let g11 = seq![44u8] + key_colon("capture_devices".spec_bytes()) + seq![91u8];
    let g12 = devs_json(r.capture_devices) + seq![93u8];
    let g13 = seq![125u8];
    let p1 = g1.len() as int;
    let p2 = p1 + g2.len();
    let p3 = p2 + g3.len();
    let p4 = p3 + g4.len();
    let p5 = p4 + g5.len();
    let p6 = p5 + g6.len();
    let p7 = p6 + g7.len();
    let p8 = p7 + g8.len();
    let p9 = p8 + g9.len();
    let p10 = p9 + g10.len();
    assert(bs.subrange(p10, p10 + g11.len() + (g12 + g13).len()) == g11 + (g12 + g13)) by {
        assert(p10 + g11.len() + (g12 + g13).len() == bs.len());
    }
    lemma_peel(bs, p10, g11, g12 + g13);
    crate::json::lemma_expect_at(bs, p10, g11);
    let p11 = p10 + g11.len();
    lemma_peel(bs, p11, g12, g13);
    lemma_devs_json_len(r.capture_devices);
    lemma_parse_devs_round(
        bs,
        p11,
        r.capture_devices,
        Seq::<DevAcc>::empty(),
        (bs.len() + 1) as nat,
    );
    let m = r.capture_devices.map_values(|d: CaptureDeviceInfoV| dev_acc_of(d));
    assert(Seq::<DevAcc>::empty() + m =~= m);
    let p12 = p11 + g12.len();
    assert(bs[p12] == 125) by {
        assert(bs.subrange(p12, p12 + 1)[0] == bs[p12]);
        assert(g13[0] == 125u8);
    }
    assert(p12 + 1 == bs.len());
    assert(spec_parse_register(bs) == Some(reg_acc_of(r))) by {
        assert(reg_acc_of(r) =~= (RegAcc {
            bridge_id: vstd::utf8::encode_utf8(r.bridge_id),
            hostname: vstd::utf8::encode_utf8(r.hostname),
            version: vstd::utf8::encode_utf8(r.version),
            ip: vstd::utf8::encode_utf8(r.ip),
            mac: vstd::utf8::encode_utf8(r.mac),
            capture_devices: m,
        }));
    }
}

proof fn lemma_reg_keys_plain()
    ensures
        plain_bytes("id".spec_bytes()),
        plain_bytes("name".spec_bytes()),
        plain_bytes("channels".spec_bytes()),
        plain_bytes("sample_rates".spec_bytes()),
        plain_bytes("bridge_id".spec_bytes()),
        plain_bytes("hostname".spec_bytes()),
        plain_bytes("version".spec_bytes()),
        plain_bytes("ip".spec_bytes()),
        plain_bytes("mac".spec_bytes()),
        plain_bytes("capture_devices".spec_bytes()),
{
    reveal_strlit("id");
    reveal_strlit("name");
    reveal_strlit("channels");
    reveal_strlit("sample_rates");
    reveal_strlit("bridge_id");
    reveal_strlit("hostname");
    reveal_strlit("version");
    reveal_strlit("ip");
    reveal_strlit("mac");
    reveal_strlit("capture_devices");
    lemma_plain_lit("id"@);
    lemma_plain_lit("name"@);
    lemma_plain_lit("channels"@);
    lemma_plain_lit("sample_rates"@);
    lemma_plain_lit("bridge_id"@);
    lemma_plain_lit("hostname"@);
    lemma_plain_lit("version"@);
    lemma_plain_lit("ip"@);
    lemma_plain_lit("mac"@);
    lemma_plain_lit("capture_devices"@);
}

/// ASCII characters between space and tilde, other than quote and
/// backslash, encode to plain bytes.
proof fn lemma_plain_lit(s: Seq<char>)
    requires
        forall|i: int| 0 <= i < s.len() ==> ' ' <= #[trigger] s[i] <= '~' && s[i] != '"' && s[i]
            != '\\',
    ensures
        plain_bytes(vstd::utf8::encode_utf8(s)),
{
    assert(vstd::utf8::is_ascii_chars(s)) by {
        assert(forall|i: int| 0 <= i < s.len() ==> '\0' <= #[trigger] s[i] <= '\u{7f}');
    }
    vstd::utf8::is_ascii_chars_encode_utf8(s);
    let b = vstd::utf8::encode_utf8(s);
    assert forall|i: int| 0 <= i < b.len() implies 32 <= b[i] && b[i] != 34 && b[i] != 92 by {
        assert(b[i] == s[i] as u8);
    }
}

/// Matches `lead` followed by `"key":` at `pos`.
fn expect_lead_key(bs: &Vec<u8>, pos: usize, lead: u8, key: &str) -> (r: Option<usize>)
    requires
        plain_bytes(key.spec_bytes()),
    ensures
        ({
            let w = seq![lead] + key_colon(key.spec_bytes());
            match r {
                Some(p) => spec_expect(bs@, pos as int, w) == Some(p as int) && pos < p
                    <= bs@.len(),
                None => spec_expect(bs@, pos as int, w) is None,
            }
        }),
{
    let ghost kb = key.spec_bytes();
    let ghost w = seq![lead] + key_colon(kb);
    proof {
        lemma_esc_plain(kb);
        assert(w =~= seq![lead, 34u8] + kb + seq![34u8, 58u8]);
    }
    if !(pos < bs.len() && bs[pos] == lead) {
        proof {
            if 0 <= pos && pos + w.len() <= bs@.len() && bs@.subrange(pos as int, pos + w.len())
                == w {
                assert(bs@.subrange(pos as int, pos + w.len())[0] == bs@[pos as int]);
                assert(w[0] == lead);
            }
        }
        return None;
    }
    if !(pos + 1 < bs.len() && bs[pos + 1] == 34) {
        proof {
            if 0 <= pos && pos + w.len() <= bs@.len() && bs@.subrange(pos as int, pos + w.len())
                == w {
                assert(bs@.subrange(pos as int, pos + w.len())[1] == bs@[pos + 1]);
                assert(w[1] == 34u8);
            }
        }
        return None;
    }
    match crate::json::expect_str(bs, pos + 2, key) {
        Some(p) => {
            if p < bs.len() && bs[p] == 34 && p + 1 < bs.len() && bs[p + 1] == 58 {
                proof {
                    let klen = kb.len() as int;
                    assert(bs@.subrange(pos + 2, pos + 2 + klen) == kb);
                    assert(bs@.subrange(pos as int, pos + w.len()) =~= w) by {
                        assert forall|k: int| 0 <= k < w.len() implies bs@.subrange(
                            pos as int,
                            pos + w.len(),
                        )[k] == w[k] by {
                            if k == 0 {
                            } else if k == 1 {
                            } else if k < klen + 2 {
                                assert(bs@.subrange(pos + 2, pos + 2 + klen)[k - 2] == bs@[pos
                                    + k]);
                                assert(w[k] == kb[k - 2]);
                            } else if k == klen + 2 {
                                assert(w[k] == 34u8);
                            } else {
                                assert(w[k] == 58u8);
                            }
                        }
                    }
                }
                Some(p + 2)
            } else {
                proof {
                    let klen = kb.len() as int;
                    if 0 <= pos && pos + w.len() <= bs@.len() && bs@.subrange(
                        pos as int,
                        pos + w.len(),
                    ) == w {
                        assert(bs@.subrange(pos as int, pos + w.len())[klen + 2] == bs@[pos + klen
                            + 2]);
                        assert(bs@.subrange(pos as int, pos + w.len())[klen + 3] == bs@[pos + klen
                            + 3]);
                        assert(w[klen + 2] == 34u8 && w[klen + 3] == 58u8);
                    }
                }
                None
            }
        },
        None => {
            proof {
                let klen = kb.len() as int;
                if 0 <= pos && pos + w.len() <= bs@.len() && bs@.subrange(
                    pos as int,
                    pos + w.len(),
                ) == w {
                    assert(bs@.subrange(pos + 2, pos + 2 + klen) =~= kb) by {
                        assert forall|k: int| 0 <= k < klen implies bs@.subrange(
                            pos + 2,
                            pos + 2 + klen,
                        )[k] == kb[k] by {
                            assert(bs@.subrange(pos as int, pos + w.len())[k + 2] == bs@[pos + 2
                                + k]);
                            assert(w[k + 2] == kb[k]);
                        }
                    }
                }
            }
            None
        },
    }
}

/// Reads the rate list of one device, from just past `[` through `]`.
fn parse_rates(bs: &Vec<u8>, pos: usize) -> (r: Option<(Vec<u32>, usize)>)
    requires
        pos <= bs@.len(),
    ensures
        ({
            let whole = spec_parse_rates_at(bs@, pos as int, Seq::<u32>::empty(), (bs@.len()
                + 1) as nat);
            match r {
                Some(p) => whole == Some((p.0@, p.1 as int)) && pos < p.1 <= bs@.len(),
                None => whole is None,
            }
        }),
{
    let mut acc: Vec<u32> = Vec::new();
    let mut cur: usize = pos;
    let ghost mut fuel: nat = (bs@.len() + 1) as nat;
    loop
        invariant
            pos <= cur <= bs@.len(),
            fuel >= bs@.len() - cur + 1,
            ({
                let whole = spec_parse_rates_at(bs@, pos as int, Seq::<u32>::empty(), (bs@.len()
                    + 1) as nat);
                match spec_parse_rates_at(bs@, cur as int, acc@, fuel) {
                    Some(p) => whole == Some(p),
                    None => whole is None,
                }
            }),
        decreases bs@.len() - cur,
    {
        if cur < bs.len() && bs[cur] == 93 {
            return Some((acc, cur + 1));
        }
        let (n, e) = match crate::json::parse_u64(bs, cur) {
            Some(p) => p,
            None => {
                return None;
            },
        };
        if n > u32::MAX as u64 {
            return None;
        }
        if e < bs.len() && bs[e] == 44 {
            acc.push(n as u32);
            proof {
                fuel = (fuel - 1) as nat;
            }
            cur = e + 1;
        } else if e < bs.len() && bs[e] == 93 {
            acc.push(n as u32);
            return Some((acc, e + 1));
        } else {
            return None;
        }
    }
}

/// One device's fields as read, before any text decoding.
struct DevRaw {
    id: Vec<u8>,
    name: Vec<u8>,
    channels: u16,
    sample_rates: Vec<u32>,
}

impl View for DevRaw {
    type V = DevAcc;

    closed spec fn view(&self) -> DevAcc {
        DevAcc {
            id: self.id@,
            name: self.name@,
            channels: self.channels,
            sample_rates: self.sample_rates@,
        }
    }
}

/// Reads one device object.
#[verifier::rlimit(100)]
fn parse_dev(bs: &Vec<u8>, pos: usize) -> (r: Option<(DevRaw, usize)>)
    ensures
        match r {
            Some(q) => spec_parse_dev(bs@, pos as int) == Some((q.0@, q.1 as int)) && pos < q.1
                <= bs@.len(),
            None => spec_parse_dev(bs@, pos as int) is None,
        },
{
    proof {
        lemma_reg_keys_plain();
    }
    let p1 = match expect_lead_key(bs, pos, 123, "id") {
        Some(p) => p,
        None => {
            return None;
        },
    };
    let (idb, p2) = match parse_quoted(bs, p1) {
        Some(p) => p,
        None => {
            return None;
        },
    };
    let p3 = match expect_lead_key(bs, p2, 44, "name") {
        Some(p) => p,
        None => {
            return None;
        },
    };
    let (nameb, p4) = match parse_quoted(bs, p3) {
        Some(p) => p,
        None => {
            return None;
        },
    };
    let p5 = match expect_lead_key(bs, p4, 44, "channels") {
        Some(p) => p,
        None => {
            return None;
        },
    };
    let (ch, p6) = match crate::json::parse_u64(bs, p5) {
        Some(p) => p,
        None => {
            return None;
        },
    };
    if ch > u16::MAX as u64 {
        return None;
    }
    let p7k = match expect_lead_key(bs, p6, 44, "sample_rates") {
        Some(p) => p,
        None => {
            proof {
                let w1 = seq![44u8] + key_colon("sample_rates".spec_bytes());
                let w2 = seq![44u8] + key_colon("sample_rates".spec_bytes()) + seq![91u8];
                if 0 <= p6 && p6 + w2.len() <= bs@.len() && bs@.subrange(
                    p6 as int,
                    p6 + w2.len(),
                ) == w2 {
                    assert(w2 =~= w1 + seq![91u8]);
                    lemma_peel(bs@, p6 as int, w1, seq![91u8]);
                }
            }
            return None;
        },
    };
    if !(p7k < bs.len() && bs[p7k] == 91) {
        proof {
            let w2 = seq![44u8] + key_colon("sample_rates".spec_bytes()) + seq![91u8];
            if 0 <= p6 && p6 + w2.len() <= bs@.len() && bs@.subrange(p6 as int, p6 + w2.len())
                == w2 {
                let w1 = seq![44u8] + key_colon("sample_rates".spec_bytes());
                assert(w2 =~= w1 + seq![91u8]);
                lemma_peel(bs@, p6 as int, w1, seq![91u8]);
                assert(bs@.subrange(p6 + w1.len(), p6 + w1.len() + 1)[0] == bs@[p6 + w1.len()]);
            }
        }
        return None;
    }
    proof {
        let w2 = seq![44u8] + key_colon("sample_rates".spec_bytes()) + seq![91u8];
        let w1 = seq![44u8] + key_colon("sample_rates".spec_bytes());
        assert(spec_expect(bs@, p6 as int, w2) == Some(p7k + 1)) by {
            assert(bs@.subrange(p6 as int, p6 + w2.len()) =~= w2) by {
                assert(bs@.subrange(p6 as int, p6 + w1.len()) == w1);
                assert forall|k: int| 0 <= k < w2.len() implies bs@.subrange(
                    p6 as int,
                    p6 + w2.len(),
                )[k] == w2[k] by {
                    if k < w1.len() {
                        assert(bs@.subrange(p6 as int, p6 + w1.len())[k] == bs@[p6 + k]);
                        assert(w2[k] == w1[k]);
                    } else {
                        assert(w2[k] == 91u8);
                    }
                }
            }
        }
    }
    let (rates, p8) = match parse_rates(bs, p7k + 1) {
        Some(p) => p,
        None => {
            return None;
        },
    };
    if !(p8 < bs.len() && bs[p8] == 125) {
        return None;
    }
    let d = DevRaw { id: idb, name: nameb, channels: ch as u16, sample_rates: rates };
    proof {
        assert(spec_parse_dev(bs@, pos as int) == Some((d@, (p8 + 1) as int)));
    }
    Some((d, p8 + 1))
}

/// Reads the registration body the emitter writes: the exact field order,
/// nothing before or after the object.
#[verifier::rlimit(100)]
#[verifier::spinoff_prover]
pub fn parse_register(bs: &Vec<u8>) -> (r: Option<BridgeRegisterRequest>)
    ensures
        match spec_parse_register(bs@) {
            Some(acc) => {
                if reg_acc_ok(acc) {
                    match r {
                        Some(reg) => reg@ == reg_of_acc(acc),
                        None => false,
                    }
                } else {
                    r is None
                }
            },
            None => r is None,
        },
{
    proof {
        lemma_reg_keys_plain();
    }
    let p1 = match expect_lead_key(bs, 0, 123, "bridge_id") {
        Some(p) => p,
        None => {
            return None;
        },
    };
    let (bridgeb, p2) = match parse_quoted(bs, p1) {
        Some(p) => p,
        None => {
            return None;
        },
    };
    let p3 = match expect_lead_key(bs, p2, 44, "hostname") {
        Some(p) => p,
        None => {
            return None;
        },
    };
    let (hostb, p4) = match parse_quoted(bs, p3) {
        Some(p) => p,
        None => {
            return None;
        },
    };
    let p5 = match expect_lead_key(bs, p4, 44, "version") {
        Some(p) => p,
        None => {
            return None;
        },
    };
    let (verb, p6) = match parse_quoted(bs, p5) {
        Some(p) => p,
        None => {
            return None;
        },
    };
    let p7 = match expect_lead_key(bs, p6, 44, "ip") {
        Some(p) => p,
        None => {
            return None;
        },
    };
    let (ipb, p8) = match parse_quoted(bs, p7) {
        Some(p) => p,
        None => {
            return None;
        },
    };
    let p9 = match expect_lead_key(bs, p8, 44, "mac") {
        Some(p) => p,
        None => {
            return None;
        },
    };
    let (macb, p10) = match parse_quoted(bs, p9) {
        Some(p) => p,
        None => {
            return None;
        },
    };
    let p11k = match expect_lead_key(bs, p10, 44, "capture_devices") {
        Some(p) => p,
        None => {
            proof {
                let w1 = seq![44u8] + key_colon("capture_devices".spec_bytes());
                let w2 = seq![44u8] + key_colon("capture_devices".spec_bytes()) + seq![91u8];
                if 0 <= p10 && p10 + w2.len() <= bs@.len() && bs@.subrange(
                    p10 as int,
                    p10 + w2.len(),
                ) == w2 {
                    assert(w2 =~= w1 + seq![91u8]);
                    lemma_peel(bs@, p10 as int, w1, seq![91u8]);
                }
            }
            return None;
        },
    };
    if !(p11k < bs.len() && bs[p11k] == 91) {
        proof {
            let w2 = seq![44u8] + key_colon("capture_devices".spec_bytes()) + seq![91u8];
            if 0 <= p10 && p10 + w2.len() <= bs@.len() && bs@.subrange(p10 as int, p10 + w2.len())
                == w2 {
                let w1 = seq![44u8] + key_colon("capture_devices".spec_bytes());
                assert(w2 =~= w1 + seq![91u8]);
                lemma_peel(bs@, p10 as int, w1, seq![91u8]);
                assert(bs@.subrange(p10 + w1.len(), p10 + w1.len() + 1)[0] == bs@[p10
                    + w1.len()]);
            }
        }
        return None;
    }
    proof {
        let w2 = seq![44u8] + key_colon("capture_devices".spec_bytes()) + seq![91u8];
        let w1 = seq![44u8] + key_colon("capture_devices".spec_bytes());
        assert(spec_expect(bs@, p10 as int, w2) == Some(p11k + 1)) by {
            assert(bs@.subrange(p10 as int, p10 + w2.len()) =~= w2) by {
                assert(bs@.subrange(p10 as int, p10 + w1.len()) == w1);
                assert forall|k: int| 0 <= k < w2.len() implies bs@.subrange(
                    p10 as int,
                    p10 + w2.len(),
                )[k] == w2[k] by {
                    if k < w1.len() {
                        assert(bs@.subrange(p10 as int, p10 + w1.len())[k] == bs@[p10 + k]);
                        assert(w2[k] == w1[k]);
                    } else {
                        assert(w2[k] == 91u8);
                    }
                }
            }
        }
    }
    let (devs_raw, end) = match parse_devs(bs, p11k + 1) {
        Some(p) => p,
        None => {
            return None;
        },
    };
    if !(end < bs.len() && bs.len() - end == 1 && bs[end] == 125) {
        return None;
    }
    let ghost dacc = devs_raw@.map_values(|d: DevRaw| d@);
    let ghost acc0 = RegAcc {
        bridge_id: bridgeb@,
        hostname: hostb@,
        version: verb@,
        ip: ipb@,
        mac: macb@,
        capture_devices: dacc,
    };
    proof {
        assert(spec_parse_register(bs@) == Some(acc0));
    }
    let bridge_id = match string_from_utf8(bridgeb) {
        Some(s) => s,
        None => {
            return None;
        },
    };
    let hostname = match string_from_utf8(hostb) {
        Some(s) => s,
        None => {
            return None;
        },
    };
    let version = match string_from_utf8(verb) {
        Some(s) => s,
        None => {
            return None;
        },
    };
    let ip = match string_from_utf8(ipb) {
        Some(s) => s,
        None => {
            return None;
        },
    };
    let mac = match string_from_utf8(macb) {
        Some(s) => s,
        None => {
            return None;
        },
    };
    let ghost rawv = devs_raw@;
    let devs = match convert_devs(devs_raw) {
        Some(ds) => ds,
        None => {
            proof {
                let j = choose|j: int|
                    0 <= j < rawv.len() && (!valid_utf8(#[trigger] rawv[j]@.id) || !valid_utf8(
                        rawv[j]@.name,
                    ));
                assert(dacc[j] == rawv[j]@);
                assert(!reg_acc_ok(acc0)) by {
                    assert(!valid_utf8(acc0.capture_devices[j].id) || !valid_utf8(
                        acc0.capture_devices[j].name,
                    ));
                }
            }
            return None;
        },
    };
    let reg = BridgeRegisterRequest { bridge_id, hostname, version, ip, mac, capture_devices: devs };
    proof {
        assert(reg@.capture_devices.len() == dacc.len());
        assert forall|i2: int| 0 <= i2 < dacc.len() implies dev_acc_of(
            #[trigger] reg@.capture_devices[i2],
        ) == acc0.capture_devices[i2] by {
            assert(dev_acc_of(reg.capture_devices@[i2]@) == dacc[i2]);
            assert(reg@.capture_devices[i2] == reg.capture_devices@[i2]@);
        }
        lemma_reg_views(reg@, acc0);
    }
    Some(reg)
}

/// A body whose raw bytes are exactly the encodings of its fields is valid
/// and decodes back to itself.
proof fn lemma_reg_views(regv: BridgeRegisterRequestV, acc: RegAcc)
    requires
        acc.bridge_id == vstd::utf8::encode_utf8(regv.bridge_id),
        acc.hostname == vstd::utf8::encode_utf8(regv.hostname),
        acc.version == vstd::utf8::encode_utf8(regv.version),
        acc.ip == vstd::utf8::encode_utf8(regv.ip),
        acc.mac == vstd::utf8::encode_utf8(regv.mac),
        acc.capture_devices.len() == regv.capture_devices.len(),
        forall|i: int| 0 <= i < regv.capture_devices.len() ==> dev_acc_of(
            #[trigger] regv.capture_devices[i],
        ) == acc.capture_devices[i],
    ensures
        reg_acc_ok(acc),
        reg_of_acc(acc) == regv,
{
    vstd::utf8::encode_utf8_valid_utf8(regv.bridge_id);
    vstd::utf8::encode_utf8_valid_utf8(regv.hostname);
    vstd::utf8::encode_utf8_valid_utf8(regv.version);
    vstd::utf8::encode_utf8_valid_utf8(regv.ip);
    vstd::utf8::encode_utf8_valid_utf8(regv.mac);
    vstd::utf8::encode_utf8_decode_utf8(regv.bridge_id);
    vstd::utf8::encode_utf8_decode_utf8(regv.hostname);
    vstd::utf8::encode_utf8_decode_utf8(regv.version);
    vstd::utf8::encode_utf8_decode_utf8(regv.ip);
    vstd::utf8::encode_utf8_decode_utf8(regv.mac);
    assert forall|i: int| 0 <= i < acc.capture_devices.len() implies valid_utf8(
        #[trigger] acc.capture_devices[i].id,
    ) && valid_utf8(acc.capture_devices[i].name) by {
        vstd::utf8::encode_utf8_valid_utf8(regv.capture_devices[i].id);
        vstd::utf8::encode_utf8_valid_utf8(regv.capture_devices[i].name);
    }
    assert(reg_of_acc(acc) =~= regv) by {
        assert forall|i: int| 0 <= i < acc.capture_devices.len() implies reg_of_acc(
            acc,
        ).capture_devices[i] == regv.capture_devices[i] by {
            vstd::utf8::encode_utf8_decode_utf8(regv.capture_devices[i].id);
            vstd::utf8::encode_utf8_decode_utf8(regv.capture_devices[i].name);
            assert(reg_of_acc(acc).capture_devices[i] =~= regv.capture_devices[i]);
        }
    }
}


/// Decodes every device's text fields; fails when any is not valid UTF-8.
fn convert_devs(raw: Vec<DevRaw>) -> (r: Option<Vec<CaptureDeviceInfo>>)
    ensures
        match r {
            Some(ds) => ds@.len() == raw@.len() && forall|j: int|
                0 <= j < ds@.len() ==> dev_acc_of(#[trigger] ds@[j]@) == raw@[j]@,
            None => exists|j: int|
                0 <= j < raw@.len() && (!valid_utf8(#[trigger] raw@[j]@.id) || !valid_utf8(
                    raw@[j]@.name,
                )),
        },
{
    let mut devs: Vec<CaptureDeviceInfo> = Vec::new();
    let total = raw.len();
    let mut i: usize = 0;
    while i < total
        invariant
            total == raw@.len(),
            i <= total,
            devs@.len() == i,
            forall|j: int| 0 <= j < i ==> dev_acc_of(#[trigger] devs@[j]@) == raw@[j]@,
        decreases total - i,
    {
        let rw = &raw[i];
        let idb2 = slice_to_vec_u8(&rw.id);
        let nameb2 = slice_to_vec_u8(&rw.name);
        proof {
            assert(idb2@ == raw@[i as int]@.id);
            assert(nameb2@ == raw@[i as int]@.name);
        }
        let id = match string_from_utf8(idb2) {
            Some(sx) => sx,
            None => {
                return None;
            },
        };
        let name = match string_from_utf8(nameb2) {
            Some(sx) => sx,
            None => {
                return None;
            },
        };
        let rates = clone_vec_u32(&rw.sample_rates);
        let d = CaptureDeviceInfo { id, name, channels: rw.channels, sample_rates: rates };
        proof {
            vstd::utf8::encode_utf8_decode_utf8(d.id@);
            vstd::utf8::encode_utf8_decode_utf8(d.name@);
            assert(dev_acc_of(d@) =~= raw@[i as int]@);
        }
        devs.push(d);
        i += 1;
    }
    Some(devs)
}

/// Copies a byte buffer.
fn slice_to_vec_u8(v: &Vec<u8>) -> (r: Vec<u8>)
    ensures
        r@ == v@,
{
    let mut r: Vec<u8> = Vec::new();
    let mut i: usize = 0;
    while i < v.len()
        invariant
            i <= v@.len(),
            r@ == v@.subrange(0, i as int),
        decreases v@.len() - i,
    {
        r.push(v[i]);
        proof {
            assert(r@ =~= v@.subrange(0, i + 1));
        }
        i += 1;
    }
    proof {
        assert(v@.subrange(0, v@.len() as int) =~= v@);
    }
    r
}

/// Copies a rate list.
fn clone_vec_u32(v: &Vec<u32>) -> (r: Vec<u32>)
    ensures
        r@ == v@,
{
    let mut r: Vec<u32> = Vec::new();
    let mut i: usize = 0;
    while i < v.len()
        invariant
            i <= v@.len(),
            r@ == v@.subrange(0, i as int),
        decreases v@.len() - i,
    {
        r.push(v[i]);
        proof {
            assert(r@ =~= v@.subrange(0, i + 1));
        }
        i += 1;
    }
    proof {
        assert(v@.subrange(0, v@.len() as int) =~= v@);
    }
    r
}

/// Reads the device list from just past `[` through `]`.
fn parse_devs(bs: &Vec<u8>, pos: usize) -> (r: Option<(Vec<DevRaw>, usize)>)
    requires
        pos <= bs@.len(),
    ensures
        ({
            let whole = spec_parse_devs_at(bs@, pos as int, Seq::<DevAcc>::empty(), (bs@.len()
                + 1) as nat);
            match r {
                Some(p) => whole == Some((p.0@.map_values(|d: DevRaw| d@), p.1 as int)) && pos
                    < p.1 <= bs@.len(),
                None => whole is None,
            }
        }),
{
    let mut devs: Vec<DevRaw> = Vec::new();
    let mut cur: usize = pos;
    let ghost mut fuel: nat = (bs@.len() + 1) as nat;
    proof {
        assert(devs@.map_values(|d: DevRaw| d@) =~= Seq::<DevAcc>::empty());
    }
    loop
        invariant
            pos <= cur <= bs@.len(),
            fuel >= bs@.len() - cur + 1,
            ({
                let whole = spec_parse_devs_at(bs@, pos as int, Seq::<DevAcc>::empty(), (bs@.len()
                    + 1) as nat);
                match spec_parse_devs_at(bs@, cur as int, devs@.map_values(|d: DevRaw| d@), fuel) {
                    Some(p) => whole == Some(p),
                    None => whole is None,
                }
            }),
        decreases bs@.len() - cur,
    {
        if cur < bs.len() && bs[cur] == 93 {
            return Some((devs, cur + 1));
        }
        let ghost dacc_pre = devs@.map_values(|d: DevRaw| d@);
        let (d, e) = match parse_dev(bs, cur) {
            Some(p) => p,
            None => {
                return None;
            },
        };
        if e < bs.len() && bs[e] == 44 {
            let ghost dv = d@;
            devs.push(d);
            proof {
                fuel = (fuel - 1) as nat;
                assert(devs@.map_values(|d: DevRaw| d@) =~= dacc_pre.push(dv));
            }
            cur = e + 1;
        } else if e < bs.len() && bs[e] == 93 {
            let ghost dv = d@;
            devs.push(d);
            proof {
                assert(devs@.map_values(|d: DevRaw| d@) =~= dacc_pre.push(dv));
            }
            return Some((devs, e + 1));
        } else {
            return None;
        }
    }
}



/// An optional string as JSON: the quoted text, or `null`.
pub open spec fn opt_str_json(o: Option<String>) -> Seq<u8> {
    match o {
        Some(s) => crate::json::quoted(vstd::utf8::encode_utf8(s@)),
        None => null_bytes(),
    }
}

/// An optional number as JSON: its decimal form, or `null`.
pub open spec fn opt_u64_json(o: Option<u64>) -> Seq<u8> {
    match o {
        Some(n) => crate::json::dec_bytes(n),
        None => null_bytes(),
    }
}

/// The status post body. Identity fields are always present (`null` when
/// unset); the one-shot track-change flag and the device list appear only
/// when set. The RMS value is written in decibels from its hundredths.
pub open spec fn status_json_head(s: BridgeStatusRequest) -> Seq<u8> {
    seq![123u8] + key_colon("state".spec_bytes()) + crate::json::quoted(
        vstd::utf8::encode_utf8(s.state@),
    ) + seq![44u8] + key_colon("device".spec_bytes()) + opt_str_json(s.device) + seq![44u8]
        + key_colon("rate".spec_bytes()) + opt_u64_json(
        match s.rate {
            Some(n) => Some(n as u64),
            None => None,
        },
    ) + seq![44u8] + key_colon("channels".spec_bytes()) + opt_u64_json(
        match s.channels {
            Some(n) => Some(n as u64),
            None => None,
        },
    ) + seq![44u8] + key_colon("format".spec_bytes()) + opt_str_json(s.format) + seq![44u8]
        + key_colon("rms_db".spec_bytes()) + (match s.rms_centidb {
        Some(v) => crate::json::centi_bytes(v),
        None => null_bytes(),
    }) + seq![44u8] + key_colon("last_error".spec_bytes()) + opt_str_json(s.last_error)
}

pub open spec fn status_json(s: BridgeStatusRequest) -> Seq<u8> {
    status_json_head(s) + (match s.track_change {
        Some(b) => seq![44u8] + key_colon("track_change".spec_bytes()) + (if b {
            seq![116u8, 114u8, 117u8, 101u8]
        } else {
            seq![102u8, 97u8, 108u8, 115u8, 101u8]
        }),
        None => Seq::<u8>::empty(),
    }) + (match s.capture_devices {
        Some(ds) => seq![44u8] + key_colon("capture_devices".spec_bytes()) + seq![91u8]
            + devs_json(ds@.map_values(|d: CaptureDeviceInfo| d@)) + seq![93u8],
        None => Seq::<u8>::empty(),
    }) + seq![125u8]
}

/// Appends an optional string value.
pub fn push_opt_str(out: &mut Vec<u8>, o: &Option<String>)
    ensures
        final (out)@ == old(out)@ + opt_str_json(*o),
{
    match o {
        Some(s) => crate::json::push_quoted(out, s.as_str()),
        None => {
            crate::json::push_str_bytes(out, "null");
            proof {
                lemma_null_lit();
            }
        },
    }
}

proof fn lemma_null_lit()
    ensures
        "null".spec_bytes() =~= null_bytes(),
        "true".spec_bytes() =~= seq![116u8, 114u8, 117u8, 101u8],
        "false".spec_bytes() =~= seq![102u8, 97u8, 108u8, 115u8, 101u8],
{
    reveal_strlit("null");
    reveal_strlit("true");
    reveal_strlit("false");
    assert(vstd::utf8::is_ascii_chars("null"@)) by {
        assert(forall|i: int| 0 <= i < "null"@.len() ==> '\0' <= #[trigger] "null"@[i]
            <= '\u{7f}');
    }
    assert(vstd::utf8::is_ascii_chars("true"@)) by {
        assert(forall|i: int| 0 <= i < "true"@.len() ==> '\0' <= #[trigger] "true"@[i]
            <= '\u{7f}');
    }
    assert(vstd::utf8::is_ascii_chars("false"@)) by {
        assert(forall|i: int| 0 <= i < "false"@.len() ==> '\0' <= #[trigger] "false"@[i]
            <= '\u{7f}');
    }
    vstd::utf8::is_ascii_chars_encode_utf8("null"@);
    vstd::utf8::is_ascii_chars_encode_utf8("true"@);
    vstd::utf8::is_ascii_chars_encode_utf8("false"@);
}

/// Appends an optional number value.
fn push_opt_u64(out: &mut Vec<u8>, o: Option<u64>)
    ensures
        final (out)@ == old(out)@ + opt_u64_json(o),
{
    match o {
        Some(n) => crate::json::push_u64(out, n),
        None => {
            crate::json::push_str_bytes(out, "null");
            proof {
                lemma_null_lit();
            }
        },
    }
}

/// Appends `[` devices `]`.
fn push_devs_array(out: &mut Vec<u8>, devices: &Vec<CaptureDeviceInfo>)
    ensures
        final (out)@ == old(out)@ + seq![91u8] + devs_json(
            devices@.map_values(|d: CaptureDeviceInfo| d@),
        ) + seq![93u8],
{
    out.push(91);
    let ghost mid = out@;
    let ghost dview = devices@.map_values(|d: CaptureDeviceInfo| d@);
    let mut i: usize = 0;
    while i < devices.len()
        invariant
            i <= devices@.len(),
            dview == devices@.map_values(|d: CaptureDeviceInfo| d@),
            out@ == mid + devs_json(dview.subrange(0, i as int)),
        decreases devices@.len() - i,
    {
        let ghost pre = dview.subrange(0, i as int);
        if i > 0 {
            out.push(44);
        }
        push_dev(out, &devices[i]);
        proof {
            lemma_devs_json_push(pre, dview[i as int]);
            assert(dview.subrange(0, i + 1) =~= pre.push(dview[i as int]));
            assert(out@ =~= mid + devs_json(dview.subrange(0, i + 1)));
        }
        i += 1;
    }
    out.push(93);
    proof {
        assert(dview.subrange(0, dview.len() as int) =~= dview);
        assert(final (out)@ =~= old(out)@ + seq![91u8] + devs_json(dview) + seq![93u8]);
    }
}

/// Writes the status post body.
#[verifier::rlimit(100)]
pub fn emit_status(s: &BridgeStatusRequest) -> (out: Vec<u8>)
    ensures
        out@ == status_json(*s),
{
    let mut out: Vec<u8> = Vec::new();
    out.push(123);
    push_key(&mut out, "state");
    crate::json::push_quoted(&mut out, s.state.as_str());
    out.push(44);
    push_key(&mut out, "device");
    push_opt_str(&mut out, &s.device);
    out.push(44);
    push_key(&mut out, "rate");
    push_opt_u64(&mut out, match s.rate {
        Some(n) => Some(n as u64),
        None => None,
    });
    out.push(44);
    push_key(&mut out, "channels");
    push_opt_u64(&mut out, match s.channels {
        Some(n) => Some(n as u64),
        None => None,
    });
    out.push(44);
    push_key(&mut out, "format");
    push_opt_str(&mut out, &s.format);
    out.push(44);
    push_key(&mut out, "rms_db");
    match s.rms_centidb {
        Some(v) => crate::json::push_centi(&mut out, v),
        None => {
            crate::json::push_str_bytes(&mut out, "null");
            proof {
                lemma_null_lit();
            }
        },
    }
    out.push(44);
    push_key(&mut out, "last_error");
    push_opt_str(&mut out, &s.last_error);
    proof {
        assert(out@ =~= status_json_head(*s));
    }
    let ghost head = out@;
    match s.track_change {
        Some(b) => {
            out.push(44);
            push_key(&mut out, "track_change");
            if b {
                crate::json::push_str_bytes(&mut out, "true");
            } else {
                crate::json::push_str_bytes(&mut out, "false");
            }
            proof {
                lemma_null_lit();
            }
        },
        None => {},
    }
    match &s.capture_devices {
        Some(ds) => {
            out.push(44);
            push_key(&mut out, "capture_devices");
            push_devs_array(&mut out, ds);
        },
        None => {},
    }
    out.push(125);
    proof {
        assert(out@ =~= status_json(*s)) by {
            assert(head == status_json_head(*s));
        }
    }
    out
}

pub const FNV_OFFSET: u64 = 0xcbf2_9ce4_8422_2325;

pub const FNV_PRIME: u64 = 0x100_0000_01b3;

/// One step of the FNV-1a fold.
pub open spec fn fnv_step(h: u64, b: u8) -> u64 {
    vstd::wrapping::u64_specs::wrapping_mul(h ^ (b as u64), FNV_PRIME)
}

/// FNV-1a over a byte sequence, from state `h`.
pub open spec fn fnv(h: u64, bs: Seq<u8>) -> u64
    decreases bs.len(),
{
    if bs.len() == 0 {
        h
    } else {
        fnv(fnv_step(h, bs[0]), bs.drop_first())
    }
}

pub open spec fn le2(n: u16) -> Seq<u8> {
    seq![(n % 256) as u8, (n / 256) as u8]
}

pub open spec fn le4(n: u32) -> Seq<u8> {
    seq![
        (n % 256) as u8,
        (n / 256 % 256) as u8,
        (n / 65536 % 256) as u8,
        (n / 16777216) as u8,
    ]
}

pub open spec fn rates_hash_bytes(rs: Seq<u32>) -> Seq<u8>
    decreases rs.len(),
{
    if rs.len() == 0 {
        Seq::<u8>::empty()
    } else {
        le4(rs[0]) + rates_hash_bytes(rs.drop_first())
    }
}

/// The canonical bytes one device hashes as: its texts, each closed with a
/// zero byte, then channels, the rate count and the rates, little-endian.
pub open spec fn dev_hash_bytes(d: CaptureDeviceInfoV) -> Seq<u8> {
    vstd::utf8::encode_utf8(d.id) + seq![0u8] + vstd::utf8::encode_utf8(d.name) + seq![0u8] + le2(
        d.channels,
    ) + le4(d.sample_rates.len() as u32) + rates_hash_bytes(d.sample_rates)
}

pub open spec fn devs_hash_bytes(ds: Seq<CaptureDeviceInfoV>) -> Seq<u8>
    decreases ds.len(),
{
    if ds.len() == 0 {
        Seq::<u8>::empty()
    } else {
        dev_hash_bytes(ds[0]) + devs_hash_bytes(ds.drop_first())
    }
}

/// The fingerprint the control plane compares device lists by.
pub open spec fn spec_hash_devices(ds: Seq<CaptureDeviceInfoV>) -> u64 {
    fnv(FNV_OFFSET, devs_hash_bytes(ds))
}

proof fn lemma_rates_hash_push(rs: Seq<u32>, x: u32)
    ensures
        rates_hash_bytes(rs.push(x)) =~= rates_hash_bytes(rs) + le4(x),
    decreases rs.len(),
{
    if rs.len() == 0 {
        assert(rs.push(x)[0] == x);
        assert(rs.push(x).drop_first() =~= Seq::<u32>::empty());
        assert(rates_hash_bytes(Seq::<u32>::empty()) =~= Seq::<u8>::empty());
        assert(rates_hash_bytes(rs.push(x)) =~= rates_hash_bytes(rs) + le4(x));
    } else {
        assert(rs.push(x)[0] == rs[0]);
        assert(rs.push(x).drop_first() =~= rs.drop_first().push(x));
        lemma_rates_hash_push(rs.drop_first(), x);
        assert(le4(rs[0]) + (rates_hash_bytes(rs.drop_first()) + le4(x)) =~= (le4(rs[0])
            + rates_hash_bytes(rs.drop_first())) + le4(x));
    }
}

proof fn lemma_devs_hash_push(ds: Seq<CaptureDeviceInfoV>, d: CaptureDeviceInfoV)
    ensures
        devs_hash_bytes(ds.push(d)) =~= devs_hash_bytes(ds) + dev_hash_bytes(d),
    decreases ds.len(),
{
    if ds.len() == 0 {
        assert(ds.push(d)[0] == d);
        assert(ds.push(d).drop_first() =~= Seq::<CaptureDeviceInfoV>::empty());
        assert(devs_hash_bytes(Seq::<CaptureDeviceInfoV>::empty()) =~= Seq::<u8>::empty());
        assert(devs_hash_bytes(ds.push(d)) =~= devs_hash_bytes(ds) + dev_hash_bytes(d));
    } else {
        assert(ds.push(d)[0] == ds[0]);
        assert(ds.push(d).drop_first() =~= ds.drop_first().push(d));
        lemma_devs_hash_push(ds.drop_first(), d);
        assert(dev_hash_bytes(ds[0]) + (devs_hash_bytes(ds.drop_first()) + dev_hash_bytes(d))
            =~= (dev_hash_bytes(ds[0]) + devs_hash_bytes(ds.drop_first())) + dev_hash_bytes(d));
    }
}

/// Appends one device's canonical hash bytes.
fn push_dev_hash_bytes(out: &mut Vec<u8>, d: &CaptureDeviceInfo)
    ensures
        final (out)@ == old(out)@ + dev_hash_bytes(d@),
{
    crate::json::push_str_bytes(out, d.id.as_str());
    out.push(0);
    crate::json::push_str_bytes(out, d.name.as_str());
    out.push(0);
    out.push((d.channels % 256) as u8);
    out.push((d.channels / 256) as u8);
    let count: u32 = d.sample_rates.len() as u32;
    out.push((count % 256) as u8);
    out.push((count / 256 % 256) as u8);
    out.push((count / 65536 % 256) as u8);
    out.push((count / 16777216) as u8);
    let ghost mid = out@;
    let mut i: usize = 0;
    while i < d.sample_rates.len()
        invariant
            i <= d.sample_rates@.len(),
            out@ == mid + rates_hash_bytes(d.sample_rates@.subrange(0, i as int)),
        decreases d.sample_rates@.len() - i,
    {
        let ghost pre = d.sample_rates@.subrange(0, i as int);
        let n = d.sample_rates[i];
        out.push((n % 256) as u8);
        out.push((n / 256 % 256) as u8);
        out.push((n / 65536 % 256) as u8);
        out.push((n / 16777216) as u8);
        proof {
            lemma_rates_hash_push(pre, n);
            assert(d.sample_rates@.subrange(0, i + 1) =~= pre.push(n));
            assert(out@ =~= mid + rates_hash_bytes(d.sample_rates@.subrange(0, i + 1)));
        }
        i += 1;
    }
    proof {
        assert(d.sample_rates@.subrange(0, d.sample_rates@.len() as int) =~= d.sample_rates@);
        assert(final (out)@ =~= old(out)@ + dev_hash_bytes(d@));
    }
}

/// The device-list fingerprint: FNV-1a over the canonical bytes. The
/// control plane re-sends the list only when this changes.
pub fn hash_capture_devices(devices: &Vec<CaptureDeviceInfo>) -> (r: u64)
    ensures
        r == spec_hash_devices(devices@.map_values(|d: CaptureDeviceInfo| d@)),
{
    let ghost dview = devices@.map_values(|d: CaptureDeviceInfo| d@);
    let mut bytes: Vec<u8> = Vec::new();
    let mut i: usize = 0;
    while i < devices.len()
        invariant
            i <= devices@.len(),
            dview == devices@.map_values(|d: CaptureDeviceInfo| d@),
            bytes@ == devs_hash_bytes(dview.subrange(0, i as int)),
        decreases devices@.len() - i,
    {
        let ghost pre = dview.subrange(0, i as int);
        push_dev_hash_bytes(&mut bytes, &devices[i]);
        proof {
            lemma_devs_hash_push(pre, dview[i as int]);
            assert(dview.subrange(0, i + 1) =~= pre.push(dview[i as int]));
            assert(bytes@ =~= devs_hash_bytes(dview.subrange(0, i + 1)));
        }
        i += 1;
    }
    proof {
        assert(dview.subrange(0, dview.len() as int) =~= dview);
    }
    let mut h: u64 = FNV_OFFSET;
    let mut j: usize = 0;
    proof {
        assert(bytes@.subrange(0, bytes@.len() as int) =~= bytes@);
    }
    while j < bytes.len()
        invariant
            j <= bytes@.len(),
            fnv(FNV_OFFSET, bytes@) == fnv(h, bytes@.subrange(j as int, bytes@.len() as int)),
        decreases bytes@.len() - j,
    {
        let ghost rest = bytes@.subrange(j as int, bytes@.len() as int);
        let b = bytes[j];
        h = (h ^ (b as u64)).wrapping_mul(FNV_PRIME);
        proof {
            assert(rest[0] == bytes@[j as int]);
            assert(rest.drop_first() =~= bytes@.subrange(j + 1, bytes@.len() as int));
        }
        j += 1;
    }
    proof {
        assert(bytes@.subrange(bytes@.len() as int, bytes@.len() as int) =~= Seq::<u8>::empty());
    }
    h
}

/// Turns gathered bytes into a string field; fails on invalid UTF-8 and
/// records why the field decodes as it does.
fn opt_bytes_to_string(o: Option<Vec<u8>>) -> (r: Result<Option<String>, ()>)
    ensures
        match r {
            Ok(v) => match (&o, v) {
                (Some(b), Some(s)) => vstd::utf8::encode_utf8(s@) == b@ && valid_utf8(b@)
                    && decode_utf8(b@) == s@,
                (None, None) => true,
                _ => false,
            },
            Err(()) => o matches Some(b) && !valid_utf8(b@),
        },
{
    match o {
        Some(b) => {
            let ghost bv = b@;
            match string_from_utf8(b) {
                Some(s) => {
                    proof {
                        vstd::utf8::encode_utf8_decode_utf8(s@);
                        vstd::utf8::encode_utf8_valid_utf8(s@);
                    }
                    Ok(Some(s))
                },
                None => Err(()),
            }
        },
        None => Ok(None),
    }
}

} // verus!
