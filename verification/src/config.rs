use vstd::prelude::*;
use vstd::string::StringSliceAdditionalSpecFns;
use vstd::utf8::{decode_utf8, encode_utf8, valid_utf8};

use crate::json::{
    expect_str, lemma_expect_at, lemma_parse_quoted_round, line_skip_end, parse_quoted,
    push_quoted, push_str_bytes, quoted, skip_sp, sp_end, spec_expect, spec_parse_quoted,
};
use crate::text::string_from_utf8;

verus! {

/// The persisted identity: a stable bridge id and, optionally, the name and
/// hardware address of the server the user prefers.
#[derive(Debug, PartialEq, Eq)]
pub struct Config {
    pub bridge_id: String,
    pub preferred_server_name: Option<String>,
    pub preferred_server_mac: Option<String>,
}

/// The mathematical image of an identity.
#[verifier::ext_equal]
pub ghost struct ConfigV {
    pub bridge_id: Seq<char>,
    pub preferred_server_name: Option<Seq<char>>,
    pub preferred_server_mac: Option<Seq<char>>,
}

impl View for Config {
    type V = ConfigV;

    open spec fn view(&self) -> ConfigV {
        ConfigV {
            bridge_id: self.bridge_id@,
            preferred_server_name: crate::runtime::opt_view(self.preferred_server_name),
            preferred_server_mac: crate::runtime::opt_view(self.preferred_server_mac),
        }
    }
}

/// Where the identity file lives when the system directory is writable.
pub fn preferred_config_path() -> (r: &'static str)
    ensures
        r@ == "/etc/lox-linein-bridge/config.toml"@,
{
    "/etc/lox-linein-bridge/config.toml"
}

/// One `key = "value"` line of the identity file.
pub open spec fn key_line_bytes(key: Seq<u8>, v: Seq<u8>) -> Seq<u8> {
    key + seq![32u8, 61u8, 32u8] + quoted(v) + seq![10u8]
}

/// The identity file: one line per present field.
pub open spec fn config_toml(c: ConfigV) -> Seq<u8> {
    key_line_bytes("bridge_id".spec_bytes(), encode_utf8(c.bridge_id)) + (
    match c.preferred_server_name {
        Some(n) => key_line_bytes("preferred_server_name".spec_bytes(), encode_utf8(n)),
        None => Seq::<u8>::empty(),
    }) + (match c.preferred_server_mac {
        Some(m) => key_line_bytes("preferred_server_mac".spec_bytes(), encode_utf8(m)),
        None => Seq::<u8>::empty(),
    })
}

/// A known key's line at `pos`: the value bytes and the index past the line.
/// The line may end in a comment; anything else after the value refuses it.
pub open spec fn spec_key_line(bs: Seq<u8>, pos: int, key: Seq<u8>) -> Option<(Seq<u8>, int)> {
    match spec_expect(bs, pos, key) {
        Some(p1) => {
            let p2 = sp_end(bs, p1);
            match spec_expect(bs, p2, seq![61u8]) {
                Some(p3) => {
                    let p4 = sp_end(bs, p3);
                    match spec_parse_quoted(bs, p4) {
                        Some(vp) => {
                            let p6 = sp_end(bs, vp.1);
                            if p6 >= bs.len() {
                                Some((vp.0, bs.len() as int))
                            } else if bs[p6] == 10 {
                                Some((vp.0, p6 + 1))
                            } else if bs[p6] == 35 {
                                Some((vp.0, line_skip_end(bs, p6)))
                            } else {
                                None
                            }
                        },
                        None => None,
                    }
                },
                None => None,
            }
        },
        None => None,
    }
}

/// What a walk of the file has gathered: raw value bytes per known key.
#[verifier::ext_equal]
pub ghost struct ConfigAcc {
    pub bridge_id: Option<Seq<u8>>,
    pub preferred_server_name: Option<Seq<u8>>,
    pub preferred_server_mac: Option<Seq<u8>>,
}

/// The file from `pos` on, folded into `acc`: blank bytes and comments are
/// passed over, known keys recorded (the last occurrence wins), unknown
/// lines ignored.
pub open spec fn spec_parse_config_at(bs: Seq<u8>, pos: int, acc: ConfigAcc, fuel: nat) -> Option<
    ConfigAcc,
>
    decreases fuel,
{
    if fuel == 0 {
        None
    } else if pos >= bs.len() {
        Some(acc)
    } else if pos < 0 {
        None
    } else if bs[pos] == 10 || bs[pos] == 13 || bs[pos] == 32 || bs[pos] == 9 {
        spec_parse_config_at(bs, pos + 1, acc, (fuel - 1) as nat)
    } else if bs[pos] == 35 {
        spec_parse_config_at(bs, line_skip_end(bs, pos), acc, (fuel - 1) as nat)
    } else {
        match spec_key_line(bs, pos, "bridge_id".spec_bytes()) {
            Some(vp) => spec_parse_config_at(
                bs,
                vp.1,
                ConfigAcc { bridge_id: Some(vp.0), ..acc },
                (fuel - 1) as nat,
            ),
            None => match spec_key_line(bs, pos, "preferred_server_name".spec_bytes()) {
                Some(vp) => spec_parse_config_at(
                    bs,
                    vp.1,
                    ConfigAcc { preferred_server_name: Some(vp.0), ..acc },
                    (fuel - 1) as nat,
                ),
                None => match spec_key_line(bs, pos, "preferred_server_mac".spec_bytes()) {
                    Some(vp) => spec_parse_config_at(
                        bs,
                        vp.1,
                        ConfigAcc { preferred_server_mac: Some(vp.0), ..acc },
                        (fuel - 1) as nat,
                    ),
                    None => spec_parse_config_at(
                        bs,
                        line_skip_end(bs, pos),
                        acc,
                        (fuel - 1) as nat,
                    ),
                },
            },
        }
    }
}

/// The accumulator the walk has gathered so far.
pub open spec fn gather_acc(b: &Option<Vec<u8>>, n: &Option<Vec<u8>>, m: &Option<Vec<u8>>) -> ConfigAcc {
    ConfigAcc {
        bridge_id: match b {
            Some(v) => Some(v@),
            None => None,
        },
        preferred_server_name: match n {
            Some(v) => Some(v@),
            None => None,
        },
        preferred_server_mac: match m {
            Some(v) => Some(v@),
            None => None,
        },
    }
}

pub open spec fn empty_acc() -> ConfigAcc {
    ConfigAcc { bridge_id: None, preferred_server_name: None, preferred_server_mac: None }
}

/// The whole identity file read into raw value bytes.
pub open spec fn spec_parse_config(bs: Seq<u8>) -> Option<ConfigAcc> {
    spec_parse_config_at(bs, 0, empty_acc(), (bs.len() + 1) as nat)
}

/// Whether the gathered bytes make an identity: the id present, every
/// present field valid UTF-8.
pub open spec fn acc_ok(acc: ConfigAcc) -> bool {
    &&& acc.bridge_id matches Some(b) && valid_utf8(b)
    &&& match acc.preferred_server_name {
        Some(b) => valid_utf8(b),
        None => true,
    }
    &&& match acc.preferred_server_mac {
        Some(b) => valid_utf8(b),
        None => true,
    }
}

/// The identity the gathered bytes decode to.
pub open spec fn acc_config(acc: ConfigAcc) -> ConfigV
    recommends
        acc_ok(acc),
{
    ConfigV {
        bridge_id: match acc.bridge_id {
            Some(b) => decode_utf8(b),
            None => Seq::<char>::empty(),
        },
        preferred_server_name: match acc.preferred_server_name {
            Some(b) => Some(decode_utf8(b)),
            None => None,
        },
        preferred_server_mac: match acc.preferred_server_mac {
            Some(b) => Some(decode_utf8(b)),
            None => None,
        },
    }
}

/// Splitting a known concatenation at `pos` gives back its parts.
proof fn lemma_slice_split(bs: Seq<u8>, pos: int, a: Seq<u8>, b: Seq<u8>)
    requires
        0 <= pos,
        pos + a.len() + b.len() <= bs.len(),
        bs.subrange(pos, pos + a.len() + b.len()) == a + b,
    ensures
        bs.subrange(pos, pos + a.len()) == a,
        bs.subrange(pos + a.len(), pos + a.len() + b.len()) == b,
{
    assert(bs.subrange(pos, pos + a.len()) =~= a) by {
        assert forall|k: int| 0 <= k < a.len() implies bs.subrange(pos, pos + a.len())[k]
            == a[k] by {
            assert(bs.subrange(pos, pos + a.len() + b.len())[k] == bs[pos + k]);
            assert((a + b)[k] == a[k]);
            assert(bs.subrange(pos, pos + a.len())[k] == bs[pos + k]);
        }
    }
    assert(bs.subrange(pos + a.len(), pos + a.len() + b.len()) =~= b) by {
        assert forall|k: int| 0 <= k < b.len() implies bs.subrange(
            pos + a.len(),
            pos + a.len() + b.len(),
        )[k] == b[k] by {
            assert(bs.subrange(pos, pos + a.len() + b.len())[a.len() + k] == bs[pos + a.len()
                + k]);
            assert((a + b)[a.len() + k] == b[k]);
        }
    }
}

/// A key's line written at `pos` parses there to its value and ends past its
/// line feed.
proof fn lemma_key_line_at(bs: Seq<u8>, pos: int, key: Seq<u8>, v: Seq<u8>)
    requires
        0 <= pos,
        key.len() >= 1,
        pos + key_line_bytes(key, v).len() <= bs.len(),
        bs.subrange(pos, pos + key_line_bytes(key, v).len()) == key_line_bytes(key, v),
    ensures
        spec_key_line(bs, pos, key) == Some((v, pos + key_line_bytes(key, v).len())),
{
    let line = key_line_bytes(key, v);
    let kl = key.len() as int;
    let sep = seq![32u8, 61u8, 32u8];
    let tail = quoted(v) + seq![10u8];
    assert(line =~= key + (sep + tail));
    assert(bs.subrange(pos, pos + kl + (sep + tail).len()) == key + (sep + tail)) by {
        assert(pos + kl + (sep + tail).len() == pos + line.len());
    }
    lemma_slice_split(bs, pos, key, sep + tail);
    lemma_expect_at(bs, pos, key);
    let p1 = pos + kl;
    assert(bs.subrange(p1, p1 + 3 + quoted(v).len() + 1) == sep + tail) by {
        assert(p1 + (sep + tail).len() == p1 + 3 + quoted(v).len() + 1);
    }
    assert(bs[p1] == 32 && bs[p1 + 1] == 61 && bs[p1 + 2] == 32) by {
        assert(bs.subrange(p1, p1 + 3 + quoted(v).len() + 1)[0] == bs[p1]);
        assert(bs.subrange(p1, p1 + 3 + quoted(v).len() + 1)[1] == bs[p1 + 1]);
        assert(bs.subrange(p1, p1 + 3 + quoted(v).len() + 1)[2] == bs[p1 + 2]);
        assert((sep + tail)[0] == 32u8 && (sep + tail)[1] == 61u8 && (sep + tail)[2] == 32u8);
    }
    assert(sp_end(bs, p1 + 1) == p1 + 1);
    assert(sp_end(bs, p1) == p1 + 1);
    assert(bs.subrange(p1 + 1, p1 + 2) =~= seq![61u8]);
    lemma_expect_at(bs, p1 + 1, seq![61u8]);
    let p4 = p1 + 3;
    assert(bs.subrange(p4, p4 + quoted(v).len() + 1) == tail) by {
        lemma_slice_split(bs, p1, sep, tail);
    }
    assert(bs.subrange(p4, p4 + quoted(v).len()) == quoted(v)) by {
        lemma_slice_split(bs, p4, quoted(v), seq![10u8]);
    }
    assert(bs[p4] == 34) by {
        assert(bs.subrange(p4, p4 + quoted(v).len())[0] == bs[p4]);
        assert(quoted(v)[0] == 34u8);
    }
    assert(sp_end(bs, p4 - 1) == p4) by {
        assert(bs[p4 - 1] == 32);
        assert(sp_end(bs, p4) == p4);
    }
    lemma_parse_quoted_round(bs, p4, v);
    let p5 = p4 + quoted(v).len();
    assert(bs[p5] == 10) by {
        lemma_slice_split(bs, p4, quoted(v), seq![10u8]);
        assert(bs.subrange(p5, p5 + 1)[0] == bs[p5]);
    }
    assert(sp_end(bs, p5) == p5);
    assert(p5 + 1 == pos + line.len());
}

/// A byte that differs from the key anywhere inside it rules the key line
/// out.
proof fn lemma_key_line_mismatch(bs: Seq<u8>, pos: int, key: Seq<u8>, k: int)
    requires
        0 <= pos,
        0 <= k < key.len(),
        pos + k < bs.len(),
        bs[pos + k] != key[k],
    ensures
        spec_key_line(bs, pos, key) is None,
{
    if pos + key.len() <= bs.len() {
        assert(bs.subrange(pos, pos + key.len() as int) != key) by {
            assert(bs.subrange(pos, pos + key.len() as int)[k] == bs[pos + k]);
        }
    }
}

proof fn lemma_key_bytes()
    ensures
        "bridge_id".spec_bytes() =~= seq![
            98u8, 114u8, 105u8, 100u8, 103u8, 101u8, 95u8, 105u8, 100u8,
        ],
        "preferred_server_name".spec_bytes() =~= seq![
            112u8, 114u8, 101u8, 102u8, 101u8, 114u8, 114u8, 101u8, 100u8, 95u8, 115u8, 101u8,
            114u8, 118u8, 101u8, 114u8, 95u8, 110u8, 97u8, 109u8, 101u8,
        ],
        "preferred_server_mac".spec_bytes() =~= seq![
            112u8, 114u8, 101u8, 102u8, 101u8, 114u8, 114u8, 101u8, 100u8, 95u8, 115u8, 101u8,
            114u8, 118u8, 101u8, 114u8, 95u8, 109u8, 97u8, 99u8,
        ],
{
    reveal_strlit("bridge_id");
    reveal_strlit("preferred_server_name");
    reveal_strlit("preferred_server_mac");
    let s1 = "bridge_id"@;
    let s2 = "preferred_server_name"@;
    let s3 = "preferred_server_mac"@;
    assert(vstd::utf8::is_ascii_chars(s1)) by {
        assert(forall|i: int| 0 <= i < s1.len() ==> '\0' <= #[trigger] s1[i] <= '\u{7f}');
    }
    assert(vstd::utf8::is_ascii_chars(s2)) by {
        assert(forall|i: int| 0 <= i < s2.len() ==> '\0' <= #[trigger] s2[i] <= '\u{7f}');
    }
    assert(vstd::utf8::is_ascii_chars(s3)) by {
        assert(forall|i: int| 0 <= i < s3.len() ==> '\0' <= #[trigger] s3[i] <= '\u{7f}');
    }
    vstd::utf8::is_ascii_chars_encode_utf8(s1);
    vstd::utf8::is_ascii_chars_encode_utf8(s2);
    vstd::utf8::is_ascii_chars_encode_utf8(s3);
}

/// The raw bytes the identity file carries for an identity.
pub open spec fn config_acc_of(c: ConfigV) -> ConfigAcc {
    ConfigAcc {
        bridge_id: Some(encode_utf8(c.bridge_id)),
        preferred_server_name: match c.preferred_server_name {
            Some(n) => Some(encode_utf8(n)),
            None => None,
        },
        preferred_server_mac: match c.preferred_server_mac {
            Some(m) => Some(encode_utf8(m)),
            None => None,
        },
    }
}

/// Writing an identity and reading the file back gives the identity again:
/// the identity-file codec round-trips.
#[verifier::rlimit(80)]
pub proof fn lemma_config_round_trip(c: ConfigV)
    ensures
        spec_parse_config(config_toml(c)) == Some(config_acc_of(c)),
        acc_ok(config_acc_of(c)),
        acc_config(config_acc_of(c)) == c,
{
    lemma_key_bytes();
    let k1 = "bridge_id".spec_bytes();
    let k2 = "preferred_server_name".spec_bytes();
    let k3 = "preferred_server_mac".spec_bytes();
    let bs = config_toml(c);
    let l1 = key_line_bytes(k1, encode_utf8(c.bridge_id));
    let l2 = match c.preferred_server_name {
        Some(n) => key_line_bytes(k2, encode_utf8(n)),
        None => Seq::<u8>::empty(),
    };
    let l3 = match c.preferred_server_mac {
        Some(m) => key_line_bytes(k3, encode_utf8(m)),
        None => Seq::<u8>::empty(),
    };
    assert(bs == l1 + l2 + l3);
    let fuel0 = (bs.len() + 1) as nat;
    let acc0 = empty_acc();
    let p1 = l1.len() as int;
    let p2 = p1 + l2.len();
    let p3 = p2 + l3.len();
    assert(p3 == bs.len());

    assert(bs.subrange(0, p1) == l1) by {
        assert(l2 + l3 =~= (l2 + l3));
        assert(bs.subrange(0, bs.len() as int) =~= bs);
        assert(bs.subrange(0, p1 + (l2 + l3).len() as int) =~= l1 + (l2 + l3));
        lemma_slice_split(bs, 0, l1, l2 + l3);
    }
    assert(bs.subrange(p1, p2) == l2 && bs.subrange(p2, p3) == l3) by {
        assert(bs.subrange(0, bs.len() as int) =~= bs);
        assert(bs.subrange(0, p1 + (l2 + l3).len() as int) =~= l1 + (l2 + l3));
        lemma_slice_split(bs, 0, l1, l2 + l3);
        lemma_slice_split(bs, p1, l2, l3);
    }

    // first line: the bridge id
    assert(bs[0] == 98) by {
        assert(bs.subrange(0, p1)[0] == bs[0]);
        assert(l1[0] == k1[0]);
    }
    lemma_key_line_at(bs, 0, k1, encode_utf8(c.bridge_id));
    let acc1 = ConfigAcc { bridge_id: Some(encode_utf8(c.bridge_id)), ..acc0 };
    assert(spec_parse_config_at(bs, 0, acc0, fuel0) == spec_parse_config_at(
        bs,
        p1,
        acc1,
        (fuel0 - 1) as nat,
    ));

    // second line, when the preferred name is present
    let acc2 = match c.preferred_server_name {
        Some(n) => ConfigAcc { preferred_server_name: Some(encode_utf8(n)), ..acc1 },
        None => acc1,
    };
    if c.preferred_server_name is Some {
        let n = c.preferred_server_name->0;
        assert(bs[p1] == 112 && bs[p1 + 17] == 110) by {
            assert(bs.subrange(p1, p2)[0] == bs[p1]);
            assert(bs.subrange(p1, p2)[17] == bs[p1 + 17]);
            assert(l2[0] == k2[0]);
            assert(l2[17] == k2[17]);
        }
        lemma_key_line_mismatch(bs, p1, k1, 0);
        lemma_key_line_at(bs, p1, k2, encode_utf8(n));
        assert(spec_parse_config_at(bs, p1, acc1, (fuel0 - 1) as nat) == spec_parse_config_at(
            bs,
            p2,
            acc2,
            (fuel0 - 2) as nat,
        ));
    }

    // third line, when the preferred hardware address is present
    let acc3 = match c.preferred_server_mac {
        Some(m) => ConfigAcc { preferred_server_mac: Some(encode_utf8(m)), ..acc2 },
        None => acc2,
    };
    if c.preferred_server_mac is Some {
        let m = c.preferred_server_mac->0;
        assert(bs[p2] == 112 && bs[p2 + 17] == 109) by {
            assert(bs.subrange(p2, p3)[0] == bs[p2]);
            assert(bs.subrange(p2, p3)[17] == bs[p2 + 17]);
            assert(l3[0] == k3[0]);
            assert(l3[17] == k3[17]);
        }
        lemma_key_line_mismatch(bs, p2, k1, 0);
        lemma_key_line_mismatch(bs, p2, k2, 17);
        lemma_key_line_at(bs, p2, k3, encode_utf8(m));
        let f = if c.preferred_server_name is Some {
            (fuel0 - 2) as nat
        } else {
            (fuel0 - 1) as nat
        };
        assert(spec_parse_config_at(bs, p2, acc2, f) == spec_parse_config_at(
            bs,
            p3,
            acc3,
            (f - 1) as nat,
        ));
    }

    // the walk ends at the end of the file
    assert(spec_parse_config_at(bs, p3, acc3, (fuel0 - 3) as nat) == Some(acc3));
    assert(spec_parse_config_at(bs, p3, acc3, (fuel0 - 2) as nat) == Some(acc3));
    assert(spec_parse_config_at(bs, p3, acc3, (fuel0 - 1) as nat) == Some(acc3));
    assert(acc3 =~= config_acc_of(c));
    assert(spec_parse_config(bs) == Some(config_acc_of(c)));

    vstd::utf8::encode_utf8_valid_utf8(c.bridge_id);
    vstd::utf8::encode_utf8_decode_utf8(c.bridge_id);
    match c.preferred_server_name {
        Some(n) => {
            vstd::utf8::encode_utf8_valid_utf8(n);
            vstd::utf8::encode_utf8_decode_utf8(n);
        },
        None => (),
    }
    match c.preferred_server_mac {
        Some(m) => {
            vstd::utf8::encode_utf8_valid_utf8(m);
            vstd::utf8::encode_utf8_decode_utf8(m);
        },
        None => (),
    }
    assert(acc_config(config_acc_of(c)) =~= c);
}

/// Writes the identity file.
pub fn emit_config(c: &Config) -> (out: Vec<u8>)
    ensures
        out@ == config_toml(c@),
{
    let mut out: Vec<u8> = Vec::new();
    push_str_bytes(&mut out, "bridge_id");
    out.push(32);
    out.push(61);
    out.push(32);
    push_quoted(&mut out, c.bridge_id.as_str());
    out.push(10);
    proof {
        assert(out@ =~= key_line_bytes("bridge_id".spec_bytes(), encode_utf8(c.bridge_id@)));
    }
    let ghost first = out@;
    if let Some(name) = &c.preferred_server_name {
        push_str_bytes(&mut out, "preferred_server_name");
        out.push(32);
        out.push(61);
        out.push(32);
        push_quoted(&mut out, name.as_str());
        out.push(10);
        proof {
            assert(out@ =~= first + key_line_bytes(
                "preferred_server_name".spec_bytes(),
                encode_utf8(name@),
            ));
        }
    }
    let ghost second = out@;
    if let Some(mac) = &c.preferred_server_mac {
        push_str_bytes(&mut out, "preferred_server_mac");
        out.push(32);
        out.push(61);
        out.push(32);
        push_quoted(&mut out, mac.as_str());
        out.push(10);
        proof {
            assert(out@ =~= second + key_line_bytes(
                "preferred_server_mac".spec_bytes(),
                encode_utf8(mac@),
            ));
        }
    }
    proof {
        assert(out@ =~= config_toml(c@));
    }
    out
}

/// Tries one known key's line at `pos`.
fn try_key_line(bs: &Vec<u8>, pos: usize, key: &str) -> (r: Option<(Vec<u8>, usize)>)
    requires
        pos <= bs@.len(),
    ensures
        match r {
            Some(p) => spec_key_line(bs@, pos as int, key.spec_bytes()) == Some((p.0@, p.1 as int))
                && pos < p.1 <= bs@.len(),
            None => spec_key_line(bs@, pos as int, key.spec_bytes()) is None,
        },
{
    let p1 = match expect_str(bs, pos, key) {
        Some(p) => p,
        None => {
            return None;
        },
    };
    let p2 = skip_sp(bs, p1);
    if !(p2 < bs.len() && bs[p2] == 61) {
        proof {
            assert(spec_expect(bs@, p2 as int, seq![61u8]) is None) by {
                if p2 < bs@.len() {
                    assert(bs@.subrange(p2 as int, p2 + 1)[0] == bs@[p2 as int]);
                }
            }
        }
        return None;
    }
    proof {
        assert(spec_expect(bs@, p2 as int, seq![61u8]) == Some(p2 + 1)) by {
            assert(bs@.subrange(p2 as int, p2 + 1) =~= seq![61u8]);
        }
    }
    let p3 = p2 + 1;
    let p4 = skip_sp(bs, p3);
    let (v, p5) = match parse_quoted(bs, p4) {
        Some(p) => p,
        None => {
            return None;
        },
    };
    let p6 = skip_sp(bs, p5);
    if p6 >= bs.len() {
        return Some((v, bs.len()));
    }
    if bs[p6] == 10 {
        return Some((v, p6 + 1));
    }
    if bs[p6] == 35 {
        let e = crate::json::skip_line(bs, p6);
        return Some((v, e));
    }
    None
}

/// Reads the identity file: the id must be present and every present field
/// valid UTF-8.
pub fn parse_config(bs: &Vec<u8>) -> (r: Option<Config>)
    ensures
        match spec_parse_config(bs@) {
            Some(acc) => {
                if acc_ok(acc) {
                    match r {
                        Some(c) => c@ == acc_config(acc),
                        None => false,
                    }
                } else {
                    r is None
                }
            },
            None => r is None,
        },
{
    let mut bridge_id: Option<Vec<u8>> = None;
    let mut name: Option<Vec<u8>> = None;
    let mut mac: Option<Vec<u8>> = None;
    let mut cur: usize = 0;
    let ghost mut fuel: nat = (bs@.len() + 1) as nat;
    loop
        invariant
            cur <= bs@.len(),
            fuel >= bs@.len() - cur + 1,
            spec_parse_config(bs@) == spec_parse_config_at(
                bs@,
                cur as int,
                gather_acc(&bridge_id, &name, &mac),
                fuel,
            ),
        ensures
            cur >= bs@.len(),
        decreases bs@.len() - cur,
    {
        if cur >= bs.len() {
            break;
        }
        let b = bs[cur];
        if b == 10 || b == 13 || b == 32 || b == 9 {
            cur += 1;
            proof {
                fuel = (fuel - 1) as nat;
            }
        } else if b == 35 {
            let e = crate::json::skip_line(bs, cur);
            cur = e;
            proof {
                fuel = (fuel - 1) as nat;
            }
        } else if let Some((v, n)) = try_key_line(bs, cur, "bridge_id") {
            bridge_id = Some(v);
            cur = n;
            proof {
                fuel = (fuel - 1) as nat;
            }
        } else if let Some((v, n)) = try_key_line(bs, cur, "preferred_server_name") {
            name = Some(v);
            cur = n;
            proof {
                fuel = (fuel - 1) as nat;
            }
        } else if let Some((v, n)) = try_key_line(bs, cur, "preferred_server_mac") {
            mac = Some(v);
            cur = n;
            proof {
                fuel = (fuel - 1) as nat;
            }
        } else {
            let e = crate::json::skip_line(bs, cur);
            cur = e;
            proof {
                fuel = (fuel - 1) as nat;
            }
        }
    }
    let ghost acc_done = gather_acc(&bridge_id, &name, &mac);
    proof {
        assert(spec_parse_config(bs@) == Some(acc_done));
    }
    let id_bytes = match bridge_id {
        Some(v) => v,
        None => {
            return None;
        },
    };
    let id = match string_from_utf8(id_bytes) {
        Some(s) => s,
        None => {
            return None;
        },
    };
    let name_s = match name {
        Some(v) => match string_from_utf8(v) {
            Some(s) => Some(s),
            None => {
                return None;
            },
        },
        None => None,
    };
    let mac_s = match mac {
        Some(v) => match string_from_utf8(v) {
            Some(s) => Some(s),
            None => {
                return None;
            },
        },
        None => None,
    };
    let c = Config { bridge_id: id, preferred_server_name: name_s, preferred_server_mac: mac_s };
    proof {
        vstd::utf8::encode_utf8_decode_utf8(c.bridge_id@);
        match &c.preferred_server_name {
            Some(s) => vstd::utf8::encode_utf8_decode_utf8(s@),
            None => (),
        }
        match &c.preferred_server_mac {
            Some(s) => vstd::utf8::encode_utf8_decode_utf8(s@),
            None => (),
        }
        vstd::utf8::encode_utf8_valid_utf8(c.bridge_id@);
        match &c.preferred_server_name {
            Some(s) => vstd::utf8::encode_utf8_valid_utf8(s@),
            None => (),
        }
        match &c.preferred_server_mac {
            Some(s) => vstd::utf8::encode_utf8_valid_utf8(s@),
            None => (),
        }
        assert(acc_ok(acc_done));
        assert(c@ =~= acc_config(acc_done));
    }
    Some(c)
}

} // verus!
