use vstd::prelude::*;
use vstd::string::StringExecFns;

use crate::runtime::opt_view;
use crate::text::str_eq_lit;

verus! {

/// One server found by discovery: where to reach it and the raw key-value
/// metadata its announcement carried.
#[derive(Debug, PartialEq, Eq)]
pub struct DiscoveredServer {
    pub base_url: String,
    pub register_path: String,
    pub status_path: String,
    pub txt: Vec<(String, String)>,
}

/// The mathematical image of a discovered server.
#[verifier::ext_equal]
pub ghost struct DiscoveredServerV {
    pub base_url: Seq<char>,
    pub register_path: Seq<char>,
    pub status_path: Seq<char>,
    pub txt: Seq<(Seq<char>, Seq<char>)>,
}

impl View for DiscoveredServer {
    type V = DiscoveredServerV;

    open spec fn view(&self) -> DiscoveredServerV {
        DiscoveredServerV {
            base_url: self.base_url@,
            register_path: self.register_path@,
            status_path: self.status_path@,
            txt: self.txt@.map_values(|p: (String, String)| (p.0@, p.1@)),
        }
    }
}

/// The first value announced under `key`.
pub open spec fn txt_get(txt: Seq<(Seq<char>, Seq<char>)>, key: Seq<char>) -> Option<Seq<char>>
    decreases txt.len(),
{
    if txt.len() == 0 {
        None
    } else if txt[0].0 == key {
        Some(txt[0].1)
    } else {
        txt_get(txt.drop_first(), key)
    }
}

/// Looks a key up in the announcement metadata.
pub fn txt_lookup(txt: &Vec<(String, String)>, key: &str) -> (r: Option<String>)
    ensures
        opt_view(r) == txt_get(txt@.map_values(|p: (String, String)| (p.0@, p.1@)), key@),
{
    let ghost tv = txt@.map_values(|p: (String, String)| (p.0@, p.1@));
    let mut i: usize = 0;
    proof {
        assert(tv.subrange(0, tv.len() as int) =~= tv);
    }
    while i < txt.len()
        invariant
            i <= txt@.len(),
            tv == txt@.map_values(|p: (String, String)| (p.0@, p.1@)),
            txt_get(tv, key@) == txt_get(tv.subrange(i as int, tv.len() as int), key@),
        decreases txt@.len() - i,
    {
        let ghost rest = tv.subrange(i as int, tv.len() as int);
        if str_eq_lit(txt[i].0.as_str(), key) {
            proof {
                assert(rest[0] == tv[i as int]);
            }
            return Some(txt[i].1.clone());
        }
        proof {
            assert(rest[0] == tv[i as int]);
            assert(rest.drop_first() =~= tv.subrange(i + 1, tv.len() as int));
        }
        i += 1;
    }
    proof {
        assert(tv.subrange(tv.len() as int, tv.len() as int) =~= Seq::<
            (Seq<char>, Seq<char>),
        >::empty());
    }
    None
}

/// A path with a leading slash added when it lacks one.
pub open spec fn normalized(path: Seq<char>) -> Seq<char> {
    if path.len() > 0 && path[0] == '/' {
        path
    } else {
        seq!['/'] + path
    }
}

/// Ensures the path starts with a slash.
pub fn normalize_path(path: String) -> (r: String)
    ensures
        r@ == normalized(path@),
{
    let n = path.as_str().unicode_len();
    if n > 0 && path.as_str().get_char(0) == '/' {
        path
    } else {
        let r = "/".to_owned().concat(path.as_str());
        proof {
            reveal_strlit("/");
            assert(r@ =~= seq!['/'] + path@);
        }
        r
    }
}

/// The hostname with trailing dots removed.
pub open spec fn trimmed_host(h: Seq<char>) -> Seq<char>
    decreases h.len(),
{
    if h.len() > 0 && h[h.len() - 1] == '.' {
        trimmed_host(h.drop_last())
    } else {
        h
    }
}

/// The address a server announcement resolves to: its first IPv4 address,
/// else its hostname with the trailing dot trimmed.
pub fn resolve_host(ipv4: Option<String>, hostname: &str) -> (r: String)
    ensures
        r@ == match opt_view(ipv4) {
            Some(ip) => ip,
            None => trimmed_host(hostname@),
        },
{
    if let Some(ip) = ipv4 {
        return ip;
    }
    let n = hostname.unicode_len();
    let mut end: usize = n;
    proof {
        assert(hostname@.subrange(0, n as int) =~= hostname@);
    }
    while end > 0 && hostname.get_char(end - 1) == '.'
        invariant
            end <= n,
            n == hostname@.len(),
            trimmed_host(hostname@) == trimmed_host(hostname@.subrange(0, end as int)),
        decreases end,
    {
        proof {
            assert(hostname@.subrange(0, end as int).drop_last() =~= hostname@.subrange(
                0,
                end - 1,
            ));
        }
        end -= 1;
    }
    proof {
        let pre = hostname@.subrange(0, end as int);
        if end > 0 {
            assert(pre[pre.len() - 1] == hostname@[end - 1]);
        }
        assert(trimmed_host(pre) == pre);
    }
    let r = hostname.substring_char(0, end).to_owned();
    r
}

/// The paths one announcement names, with the documented defaults filled
/// in: `api` (default `/api`), the register path (default
/// `{api}/linein/bridges/register`) and the status path (default
/// `{api}/linein/bridges/{bridge_id}/status`), each given a leading slash.
pub open spec fn spec_register_path(txt: Seq<(Seq<char>, Seq<char>)>) -> Seq<char> {
    let api = match txt_get(txt, "api"@) {
        Some(a) => a,
        None => "/api"@,
    };
    normalized(
        match txt_get(txt, "linein_register"@) {
            Some(p) => p,
            None => api + "/linein/bridges/register"@,
        },
    )
}

pub open spec fn spec_status_path(txt: Seq<(Seq<char>, Seq<char>)>) -> Seq<char> {
    let api = match txt_get(txt, "api"@) {
        Some(a) => a,
        None => "/api"@,
    };
    normalized(
        match txt_get(txt, "linein_status"@) {
            Some(p) => p,
            None => api + "/linein/bridges/{bridge_id}/status"@,
        },
    )
}

/// Builds one candidate from a resolved announcement: host, port and
/// metadata.
pub fn build_server(host: &str, port: u16, txt: Vec<(String, String)>) -> (r: DiscoveredServer)
    ensures
        r@.base_url == "http://"@ + host@ + ":"@ + crate::text::u64_dec_chars(port as u64),
        r@.register_path == spec_register_path(
            txt@.map_values(|p: (String, String)| (p.0@, p.1@)),
        ),
        r@.status_path == spec_status_path(txt@.map_values(|p: (String, String)| (p.0@, p.1@))),
        r@.txt == txt@.map_values(|p: (String, String)| (p.0@, p.1@)),
{
    let mut base_url = "http://".to_owned();
    base_url.append(host);
    base_url.append(":");
    let digits = crate::text::u64_to_dec_string(port as u64);
    base_url.append(digits.as_str());
    let api = match txt_lookup(&txt, "api") {
        Some(a) => a,
        None => "/api".to_owned(),
    };
    let register_raw = match txt_lookup(&txt, "linein_register") {
        Some(p) => p,
        None => {
            let mut p = api.clone();
            p.append("/linein/bridges/register");
            p
        },
    };
    let status_raw = match txt_lookup(&txt, "linein_status") {
        Some(p) => p,
        None => {
            let mut p = api.clone();
            p.append("/linein/bridges/{bridge_id}/status");
            p
        },
    };
    let register_path = normalize_path(register_raw);
    let status_path = normalize_path(status_raw);
    DiscoveredServer { base_url, register_path, status_path, txt }
}

/// The first index whose metadata announces `val` under `key`.
pub open spec fn find_by_txt(
    cands: Seq<DiscoveredServerV>,
    key: Seq<char>,
    val: Seq<char>,
    i: int,
) -> Option<int>
    decreases cands.len() - i,
{
    if i < 0 || i >= cands.len() {
        None
    } else if txt_get(cands[i].txt, key) == Some(val) {
        Some(i)
    } else {
        find_by_txt(cands, key, val, i + 1)
    }
}

/// Which candidate discovery settles on: the only one when there is one
/// alone; else the first whose announced hardware address matches the
/// preference, else the first whose announced name does, else the first.
pub open spec fn spec_select(
    cands: Seq<DiscoveredServerV>,
    preferred_name: Option<Seq<char>>,
    preferred_mac: Option<Seq<char>>,
) -> Option<int> {
    if cands.len() == 0 {
        None
    } else if cands.len() == 1 {
        Some(0)
    } else {
        let by_mac = match preferred_mac {
            Some(m) => find_by_txt(cands, "mac"@, m, 0),
            None => None,
        };
        let by_name = match preferred_name {
            Some(n) => find_by_txt(cands, "name"@, n, 0),
            None => None,
        };
        match by_mac {
            Some(i) => Some(i),
            None => match by_name {
                Some(i) => Some(i),
                None => Some(0),
            },
        }
    }
}

/// Picks the preferred candidate and hands it out.
pub fn select_server(
    mut candidates: Vec<DiscoveredServer>,
    preferred_name: Option<&str>,
    preferred_mac: Option<&str>,
) -> (r: Option<DiscoveredServer>)
    ensures
        ({
            let cv = candidates@.map_values(|c: DiscoveredServer| c@);
            let nv = match preferred_name {
                Some(n) => Some(n@),
                None => None,
            };
            let mv = match preferred_mac {
                Some(m) => Some(m@),
                None => None,
            };
            match r {
                Some(s) => spec_select(cv, nv, mv) matches Some(i) && s@ == cv[i],
                None => spec_select(cv, nv, mv) is None,
            }
        }),
{
    let ghost cv = candidates@.map_values(|c: DiscoveredServer| c@);
    if candidates.len() == 0 {
        return None;
    }
    if candidates.len() == 1 {
        let s = candidates.remove(0);
        proof {
            assert(s@ == cv[0]);
        }
        return Some(s);
    }
    let idx_mac: Option<usize> = match preferred_mac {
        Some(m) => find_candidate(&candidates, "mac", m),
        None => None,
    };
    let idx: usize = match idx_mac {
        Some(i) => i,
        None => {
            let idx_name: Option<usize> = match preferred_name {
                Some(n) => find_candidate(&candidates, "name", n),
                None => None,
            };
            match idx_name {
                Some(i) => i,
                None => 0,
            }
        },
    };
    let s = candidates.remove(idx);
    proof {
        assert(s@ == cv[idx as int]);
    }
    Some(s)
}

/// Finds the first candidate announcing `val` under `key`.
fn find_candidate(candidates: &Vec<DiscoveredServer>, key: &str, val: &str) -> (r: Option<usize>)
    ensures
        ({
            let cv = candidates@.map_values(|c: DiscoveredServer| c@);
            match r {
                Some(i) => find_by_txt(cv, key@, val@, 0) == Some(i as int) && i
                    < candidates@.len(),
                None => find_by_txt(cv, key@, val@, 0) is None,
            }
        }),
{
    let ghost cv = candidates@.map_values(|c: DiscoveredServer| c@);
    let mut i: usize = 0;
    while i < candidates.len()
        invariant
            i <= candidates@.len(),
            cv == candidates@.map_values(|c: DiscoveredServer| c@),
            find_by_txt(cv, key@, val@, 0) == find_by_txt(cv, key@, val@, i as int),
        decreases candidates@.len() - i,
    {
        let hit = match txt_lookup(&candidates[i].txt, key) {
            Some(v) => str_eq_lit(v.as_str(), val),
            None => false,
        };
        proof {
            assert(cv[i as int] == candidates@[i as int]@);
        }
        if hit {
            return Some(i);
        }
        i += 1;
    }
    None
}

} // verus!
