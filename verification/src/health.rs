use vstd::prelude::*;
use vstd::string::StringSliceAdditionalSpecFns;

verus! {

/// The health file's payload: a point-in-time copy of the status register
/// together with the wall-clock stamp it was taken at.
#[derive(Clone, Debug, PartialEq, Eq)]
pub struct HealthSnapshot {
    pub ts: String,
    pub state: String,
    pub device: String,
    pub ingest: String,
    pub last_error: Option<String>,
    pub bytes_sent_total: u64,
    pub last_chunk_ts: Option<String>,
}

/// An indented `"key": ` of the pretty health file.
pub open spec fn pretty_key(k: Seq<u8>) -> Seq<u8> {
    seq![32u8, 32u8] + crate::json::quoted(k) + seq![58u8, 32u8]
}

/// The health file: one pretty-printed object, every field present, absent
/// values as `null`.
pub open spec fn health_json(h: HealthSnapshot) -> Seq<u8> {
    seq![123u8, 10u8] + pretty_key("ts".spec_bytes()) + crate::json::quoted(
        vstd::utf8::encode_utf8(h.ts@),
    ) + seq![44u8, 10u8] + pretty_key("state".spec_bytes()) + crate::json::quoted(
        vstd::utf8::encode_utf8(h.state@),
    ) + seq![44u8, 10u8] + pretty_key("device".spec_bytes()) + crate::json::quoted(
        vstd::utf8::encode_utf8(h.device@),
    ) + seq![44u8, 10u8] + pretty_key("ingest".spec_bytes()) + crate::json::quoted(
        vstd::utf8::encode_utf8(h.ingest@),
    ) + seq![44u8, 10u8] + pretty_key("last_error".spec_bytes()) + crate::models::opt_str_json(
        h.last_error,
    ) + seq![44u8, 10u8] + pretty_key("bytes_sent_total".spec_bytes()) + crate::json::dec_bytes(
        h.bytes_sent_total,
    ) + seq![44u8, 10u8] + pretty_key("last_chunk_ts".spec_bytes()) + crate::models::opt_str_json(
        h.last_chunk_ts,
    ) + seq![10u8, 125u8]
}

/// Appends `  "key": `.
fn push_pretty_key(out: &mut Vec<u8>, key: &str)
    ensures
        final (out)@ == old(out)@ + pretty_key(key.spec_bytes()),
{
    out.push(32);
    out.push(32);
    crate::json::push_quoted(out, key);
    out.push(58);
    out.push(32);
    proof {
        assert(final (out)@ =~= old(out)@ + pretty_key(key.spec_bytes()));
    }
}

/// Writes the health file's payload.
#[verifier::rlimit(100)]
pub fn emit_health(h: &HealthSnapshot) -> (out: Vec<u8>)
    ensures
        out@ == health_json(*h),
{
    let mut out: Vec<u8> = Vec::new();
    out.push(123);
    out.push(10);
    push_pretty_key(&mut out, "ts");
    crate::json::push_quoted(&mut out, h.ts.as_str());
    out.push(44);
    out.push(10);
    push_pretty_key(&mut out, "state");
    crate::json::push_quoted(&mut out, h.state.as_str());
    out.push(44);
    out.push(10);
    push_pretty_key(&mut out, "device");
    crate::json::push_quoted(&mut out, h.device.as_str());
    out.push(44);
    out.push(10);
    push_pretty_key(&mut out, "ingest");
    crate::json::push_quoted(&mut out, h.ingest.as_str());
    out.push(44);
    out.push(10);
    push_pretty_key(&mut out, "last_error");
    crate::models::push_opt_str(&mut out, &h.last_error);
    out.push(44);
    out.push(10);
    push_pretty_key(&mut out, "bytes_sent_total");
    crate::json::push_u64(&mut out, h.bytes_sent_total);
    out.push(44);
    out.push(10);
    push_pretty_key(&mut out, "last_chunk_ts");
    crate::models::push_opt_str(&mut out, &h.last_chunk_ts);
    out.push(10);
    out.push(125);
    proof {
        assert(out@ =~= health_json(*h));
    }
    out
}

} // verus!
