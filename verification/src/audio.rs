use vstd::prelude::*;

use crate::models::CaptureDeviceInfo;

verus! {

/// The wire format is always interleaved stereo.
pub const TARGET_CHANNELS: u16 = 2;

/// Which sample-rate converter a capture session runs: buffer-and-interpolate,
/// or a windowed-sinc polyphase filter in a fast or a quality setting.
#[derive(Clone, Copy, Debug, PartialEq, Eq, Structural)]
pub enum ResamplerMode {
    Linear,
    SincFast,
    SincQuality,
}

pub open spec fn is_space_char(c: char) -> bool {
    c == ' ' || c == '\t' || c == '\n' || c == '\r'
}

pub open spec fn lower_char(c: char) -> char {
    if 'A' <= c && c <= 'Z' {
        (((c as u32) + 32) as u8) as char
    } else {
        c
    }
}

/// `s` without leading spaces, tabs and line breaks.
pub open spec fn trim_start_chars(s: Seq<char>) -> Seq<char>
    decreases s.len(),
{
    if s.len() > 0 && is_space_char(s[0]) {
        trim_start_chars(s.drop_first())
    } else {
        s
    }
}

/// `s` without trailing spaces, tabs and line breaks.
pub open spec fn trim_end_chars(s: Seq<char>) -> Seq<char>
    decreases s.len(),
{
    if s.len() > 0 && is_space_char(s[s.len() - 1]) {
        trim_end_chars(s.drop_last())
    } else {
        s
    }
}

/// The mode a configuration word names: the word, trimmed and lowercased
/// (ASCII), against the accepted spellings of the three modes.
pub open spec fn spec_parse_mode(s: Seq<char>) -> Option<ResamplerMode> {
    let t = trim_end_chars(trim_start_chars(s)).map_values(|c: char| lower_char(c));
    if t == "linear"@ || t == "basic"@ {
        Some(ResamplerMode::Linear)
    } else if t == "sinc"@ || t == "rubato"@ || t == "quality"@ || t == "hq"@ {
        Some(ResamplerMode::SincQuality)
    } else if t == "sinc-fast"@ || t == "fast"@ || t == "medium"@ {
        Some(ResamplerMode::SincFast)
    } else {
        None
    }
}

pub open spec fn label_chars(m: ResamplerMode) -> Seq<char> {
    match m {
        ResamplerMode::Linear => "linear"@,
        ResamplerMode::SincFast => "sinc-fast"@,
        ResamplerMode::SincQuality => "sinc"@,
    }
}

/// True when the characters of `v` spell exactly `lit`.
fn chars_eq(v: &Vec<char>, lit: &str) -> (r: bool)
    ensures
        r == (v@ == lit@),
{
    let n = lit.unicode_len();
    if v.len() != n {
        assert(v@ != lit@) by {
            assert(v@.len() != lit@.len());
        }
        return false;
    }
    let mut i: usize = 0;
    while i < n
        invariant
            n == lit@.len(),
            v@.len() == n,
            i <= n,
            forall|j: int| 0 <= j < i ==> v@[j] == lit@[j],
        decreases n - i,
    {
        if v[i] != lit.get_char(i) {
            assert(v@ != lit@) by {
                assert(v@[i as int] != lit@[i as int]);
            }
            return false;
        }
        i += 1;
    }
    assert(v@ =~= lit@);
    true
}

proof fn lemma_trim_start_index(s: Seq<char>, k: int)
    requires
        0 <= k <= s.len(),
        forall|j: int| 0 <= j < k ==> is_space_char(s[j]),
        k < s.len() ==> !is_space_char(s[k]),
    ensures
        trim_start_chars(s) =~= s.subrange(k, s.len() as int),
    decreases k,
{
    if k == 0 {
        if s.len() > 0 && is_space_char(s[0]) {
            assert(false);
        }
        assert(trim_start_chars(s) =~= s.subrange(0, s.len() as int));
    } else {
        assert(is_space_char(s[0]));
        assert(trim_start_chars(s) == trim_start_chars(s.drop_first()));
        lemma_trim_start_index(s.drop_first(), k - 1);
        assert(s.drop_first().subrange(k - 1, s.drop_first().len() as int) =~= s.subrange(
            k,
            s.len() as int,
        ));
    }
}

proof fn lemma_trim_end_index(s: Seq<char>, k: int)
    requires
        0 <= k <= s.len(),
        forall|j: int| k <= j < s.len() ==> is_space_char(s[j]),
        k > 0 ==> !is_space_char(s[k - 1]),
    ensures
        trim_end_chars(s) =~= s.subrange(0, k),
    decreases s.len(),
{
    if k == s.len() {
        if s.len() > 0 && is_space_char(s[s.len() - 1]) {
            assert(false);
        }
        assert(trim_end_chars(s) =~= s.subrange(0, k));
    } else {
        assert(is_space_char(s[s.len() - 1]));
        assert(trim_end_chars(s) == trim_end_chars(s.drop_last()));
        lemma_trim_end_index(s.drop_last(), k);
        assert(s.drop_last().subrange(0, k) =~= s.subrange(0, k));
    }
}

impl ResamplerMode {
    /// The mode named by a configuration word, compared after trimming and
    /// ASCII lowercasing; `None` for an unknown word.
    pub fn parse(name: &str) -> (r: Option<ResamplerMode>)
        ensures
            r == spec_parse_mode(name@),
    {
        let n = name.unicode_len();
        let mut start: usize = 0;
        while start < n && is_space(name.get_char(start))
            invariant
                n == name@.len(),
                start <= n,
                forall|j: int| 0 <= j < start ==> is_space_char(name@[j]),
            decreases n - start,
        {
            start += 1;
        }
        let mut end: usize = n;
        while end > start && is_space(name.get_char(end - 1))
            invariant
                n == name@.len(),
                start <= end <= n,
                forall|j: int| 0 <= j < start ==> is_space_char(name@[j]),
                forall|j: int| end <= j < n ==> is_space_char(name@[j]),
            decreases end,
        {
            end -= 1;
        }
        proof {
            let s = name@;
            if start == n {
                lemma_trim_start_index(s, n as int);
                assert(trim_start_chars(s) =~= s.subrange(start as int, n as int));
            } else {
                lemma_trim_start_index(s, start as int);
            }
            let t = trim_start_chars(s);
            assert(t =~= s.subrange(start as int, n as int));
            if end == start {
                lemma_trim_end_index(t, 0);
            } else {
                assert(!is_space_char(s[end - 1]));
                lemma_trim_end_index(t, end - start);
            }
            assert(trim_end_chars(trim_start_chars(s)) =~= s.subrange(
                start as int,
                end as int,
            ));
        }
        let mut t: Vec<char> = Vec::new();
        let mut i: usize = start;
        while i < end
            invariant
                n == name@.len(),
                start <= i <= end <= n,
                t@.len() == i - start,
                forall|j: int| 0 <= j < i - start ==> t@[j] == lower_char(name@[start + j]),
            decreases end - i,
        {
            let c = name.get_char(i);
            let lc: char = if 'A' <= c && c <= 'Z' {
                (((c as u32) + 32) as u8) as char
            } else {
                c
            };
            t.push(lc);
            i += 1;
        }
        proof {
            assert(t@ =~= name@.subrange(start as int, end as int).map_values(
                |c: char| lower_char(c),
            ));
        }
        if chars_eq(&t, "linear") || chars_eq(&t, "basic") {
            Some(ResamplerMode::Linear)
        } else if chars_eq(&t, "sinc") || chars_eq(&t, "rubato") || chars_eq(&t, "quality")
            || chars_eq(&t, "hq") {
            Some(ResamplerMode::SincQuality)
        } else if chars_eq(&t, "sinc-fast") || chars_eq(&t, "fast") || chars_eq(&t, "medium") {
            Some(ResamplerMode::SincFast)
        } else {
            None
        }
    }

    pub fn label(&self) -> (r: &'static str)
        ensures
            r@ == label_chars(*self),
    {
        match self {
            ResamplerMode::Linear => "linear",
            ResamplerMode::SincFast => "sinc-fast",
            ResamplerMode::SincQuality => "sinc",
        }
    }
}

fn is_space(c: char) -> (r: bool)
    ensures
        r == is_space_char(c),
{
    c == ' ' || c == '\t' || c == '\n' || c == '\r'
}

/// The signed 16-bit sample two little-endian bytes carry.
pub open spec fn i16_of_le(lo: u8, hi: u8) -> int {
    let v = lo + 256 * (hi as int);
    if v < 32768 {
        v
    } else {
        v - 65536
    }
}

/// The sum of the squares of the first `n` samples of an i16-LE buffer.
pub open spec fn sum_squares(bs: Seq<u8>, n: nat) -> int
    decreases n,
{
    if n == 0 {
        0
    } else {
        sum_squares(bs, (n - 1) as nat) + i16_of_le(bs[2 * (n - 1)], bs[2 * (n - 1) + 1])
            * i16_of_le(bs[2 * (n - 1)], bs[2 * (n - 1) + 1])
    }
}

/// Decodes an i16-LE buffer and sums the squared samples, for the RMS
/// envelope: `None` when the buffer holds no whole sample, else the sum and
/// the sample count (a trailing odd byte is ignored).
pub fn pcm_sum_squares(bytes: &Vec<u8>) -> (r: Option<(u128, u64)>)
    ensures
        match r {
            Some(p) => {
                &&& bytes@.len() / 2 > 0
                &&& p.1 == bytes@.len() / 2
                &&& p.0 == sum_squares(bytes@, (bytes@.len() / 2) as nat)
            },
            None => bytes@.len() / 2 == 0,
        },
{
    let total = bytes.len();
    let count = total / 2;
    if count == 0 {
        return None;
    }
    let mut sum: u128 = 0;
    let mut i: usize = 0;
    let mut idx: usize = 0;
    while i < count
        invariant
            total == bytes@.len(),
            count == total / 2,
            idx == 2 * i,
            i <= count,
            sum == sum_squares(bytes@, i as nat),
            sum <= (i as int) * 0x4000_0000,
        decreases count - i,
    {
        proof {
            assert(2 * (count as int) <= total as int);
            assert(2 * (i as int) + 1 < total as int);
        }
        let lo = bytes[idx];
        let hi = bytes[idx + 1];
        let v: u32 = lo as u32 + 256 * (hi as u32);
        let s: i32 = if v >= 32768 {
            v as i32 - 65536
        } else {
            v as i32
        };
        assert(s == i16_of_le(bytes@[2 * (i as int)], bytes@[2 * (i as int) + 1]));
        assert(-32768 <= s <= 32767);
        assert(0 <= s * s <= 0x4000_0000) by (nonlinear_arith)
            requires
                -32768 <= s <= 32767,
        ;
        let sq: u64 = (s * s) as u64;
        sum = sum + sq as u128;
        idx += 2;
        i += 1;
    }
    Some((sum, count as u64))
}

/// The little-endian byte image of a sample sequence, two bytes per sample.
pub open spec fn le_frames(samples: Seq<i16>) -> Seq<u8>
    decreases samples.len(),
{
    if samples.len() == 0 {
        Seq::<u8>::empty()
    } else {
        le_frames(samples.drop_last()) + seq![
            ((samples.last() as u16) % 256) as u8,
            ((samples.last() as u16) / 256) as u8,
        ]
    }
}

/// Frames a sample buffer for the wire: little-endian, two bytes per sample.
pub fn frame_chunk(samples: &Vec<i16>) -> (bytes: Vec<u8>)
    ensures
        bytes@ == le_frames(samples@),
        bytes@.len() == 2 * samples@.len(),
{
    let mut bytes: Vec<u8> = Vec::new();
    let mut i: usize = 0;
    proof {
        lemma_le_frames_len(samples@);
    }
    while i < samples.len()
        invariant
            i <= samples@.len(),
            bytes@ == le_frames(samples@.subrange(0, i as int)),
            bytes@.len() == 2 * i,
        decreases samples@.len() - i,
    {
        let s = samples[i];
        let u: u16 = s as u16;
        bytes.push((u % 256) as u8);
        bytes.push((u / 256) as u8);
        proof {
            let pre = samples@.subrange(0, i as int);
            let cur = samples@.subrange(0, i + 1);
            assert(cur.drop_last() =~= pre);
            assert(cur.last() == samples@[i as int]);
            lemma_le_frames_len(cur);
        }
        i += 1;
    }
    proof {
        assert(samples@.subrange(0, samples@.len() as int) =~= samples@);
    }
    bytes
}

proof fn lemma_le_frames_len(samples: Seq<i16>)
    ensures
        le_frames(samples).len() == 2 * samples.len(),
    decreases samples.len(),
{
    if samples.len() > 0 {
        lemma_le_frames_len(samples.drop_last());
    }
}

/// A whole number of stereo frames occupies a multiple of four bytes on the
/// wire: every chunk the pipeline frames from stereo sample pairs does.
pub proof fn lemma_stereo_chunk_multiple_of_four(samples: Seq<i16>)
    requires
        samples.len() % 2 == 0,
    ensures
        le_frames(samples).len() % 4 == 0,
{
    lemma_le_frames_len(samples);
}

/// What the observed-rate accumulator concluded from a callback: keep
/// counting, confirm the current rate (and perhaps log it), or switch to a
/// newly observed rate and rebuild the converter state.
#[derive(Clone, Copy, Debug, PartialEq, Eq, Structural)]
pub enum RateDecision {
    Pending,
    Steady { observed: u32, log_due: bool },
    Changed { observed: u32 },
}

/// The input rate a two-second accumulation works out to, rounded to the
/// nearest whole frame per second and capped at `u32::MAX`.
pub open spec fn observed_rate(frames: u64, elapsed_ms: u64) -> u32
    recommends
        elapsed_ms > 0,
{
    let r = ((frames as int) * 1000 + (elapsed_ms as int) / 2) / (elapsed_ms as int);
    if r > u32::MAX {
        u32::MAX
    } else {
        r as u32
    }
}

/// Watches how many frames the device actually delivers against the rate it
/// announced. After two seconds of accumulation the observed rate either
/// confirms `in_rate` (a log at most every ten seconds) or replaces it, upon
/// which the caller rebuilds its converter state.
#[derive(Clone, Copy, Debug)]
pub struct RateObserver {
    pub in_rate: u32,
    pub target_rate: u32,
    pub rate_frames: u64,
    pub rate_start_ms: u64,
    pub last_rate_log_ms: u64,
}

impl RateObserver {
    pub fn new(in_rate: u32, target_rate: u32, now_ms: u64) -> (r: Self)
        ensures
            r.in_rate == in_rate,
            r.target_rate == target_rate,
            r.rate_frames == 0,
            r.rate_start_ms == now_ms,
            r.last_rate_log_ms == now_ms,
    {
        RateObserver {
            in_rate,
            target_rate,
            rate_frames: 0,
            rate_start_ms: now_ms,
            last_rate_log_ms: now_ms,
        }
    }

    /// True when the converter has real work: the rates differ.
    pub fn needs_resample_rate(&self) -> (r: bool)
        ensures
            r == (self.in_rate != self.target_rate),
    {
        self.in_rate != self.target_rate
    }

    /// Accounts one callback of `samples` interleaved values over
    /// `in_channels` channels at `now_ms` and decides what the observed rate
    /// means. Fewer than two seconds in, it only counts.
    pub fn observe_input(&mut self, samples: usize, in_channels: u16, now_ms: u64) -> (d: RateDecision)
        requires
            in_channels >= 1,
        ensures
            ({
                let frames = old(self).rate_frames.saturating_add(
                    (samples as u64) / (in_channels as u64),
                );
                let elapsed = crate::stream::sat_sub(now_ms, old(self).rate_start_ms);
                if elapsed < 2000 {
                    d == RateDecision::Pending && *final (self) == (RateObserver {
                        rate_frames: frames,
                        ..*old(self)
                    })
                } else {
                    let observed = observed_rate(frames, elapsed);
                    if observed == 0 {
                        d == RateDecision::Pending && *final (self) == (RateObserver {
                            rate_frames: frames,
                            ..*old(self)
                        })
                    } else if observed != old(self).in_rate {
                        d == (RateDecision::Changed { observed }) && *final (self) == (RateObserver {
                            in_rate: observed,
                            rate_frames: 0u64,
                            rate_start_ms: now_ms,
                            last_rate_log_ms: now_ms,
                            ..*old(self)
                        })
                    } else {
                        let log_due = crate::stream::sat_sub(
                            now_ms,
                            old(self).last_rate_log_ms,
                        ) >= 10000;
                        d == (RateDecision::Steady { observed, log_due }) && *final (self)
                            == (RateObserver {
                            rate_frames: 0u64,
                            rate_start_ms: now_ms,
                            last_rate_log_ms: if log_due {
                                now_ms
                            } else {
                                old(self).last_rate_log_ms
                            },
                            ..*old(self)
                        })
                    }
                }
            }),
    {
        let frames_in = (samples as u64) / (in_channels as u64);
        self.rate_frames = self.rate_frames.saturating_add(frames_in);
        let elapsed: u64 = if now_ms >= self.rate_start_ms {
            now_ms - self.rate_start_ms
        } else {
            0
        };
        if elapsed < 2000 {
            return RateDecision::Pending;
        }
        let wide: u128 = (self.rate_frames as u128) * 1000 + (elapsed as u128) / 2;
        let r: u128 = wide / (elapsed as u128);
        let observed: u32 = if r > u32::MAX as u128 {
            u32::MAX
        } else {
            r as u32
        };
        proof {
            let frames = self.rate_frames;
            assert((frames as u128) * 1000 + (elapsed as u128) / 2 == (frames as int) * 1000
                + (elapsed as int) / 2) by (nonlinear_arith)
                requires
                    frames <= u64::MAX,
                    elapsed >= 2000,
            ;
            assert(r == ((frames as int) * 1000 + (elapsed as int) / 2) / (elapsed as int))
                by (nonlinear_arith)
                requires
                    wide == (frames as int) * 1000 + (elapsed as int) / 2,
                    r == wide / (elapsed as u128),
                    elapsed >= 2000,
            ;
        }
        if observed == 0 {
            return RateDecision::Pending;
        }
        if observed != self.in_rate {
            self.in_rate = observed;
            self.rate_frames = 0;
            self.rate_start_ms = now_ms;
            self.last_rate_log_ms = now_ms;
            RateDecision::Changed { observed }
        } else {
            let log_elapsed: u64 = if now_ms >= self.last_rate_log_ms {
                now_ms - self.last_rate_log_ms
            } else {
                0
            };
            let log_due = log_elapsed >= 10000;
            if log_due {
                self.last_rate_log_ms = now_ms;
            }
            self.rate_frames = 0;
            self.rate_start_ms = now_ms;
            RateDecision::Steady { observed, log_due }
        }
    }
}

/// The most channels any configuration in the first `n` offers.
pub open spec fn max_channels(configs: Seq<(u16, u32, u32)>, n: nat) -> u16
    decreases n,
{
    if n == 0 {
        0u16
    } else {
        let prev = max_channels(configs, (n - 1) as nat);
        if configs[n - 1].0 > prev {
            configs[n - 1].0
        } else {
            prev
        }
    }
}

/// Strictly increasing: sorted with no duplicates.
pub open spec fn sorted_unique(s: Seq<u32>) -> bool {
    forall|i: int, j: int| 0 <= i < j < s.len() ==> s[i] < s[j]
}

/// Whether `r` is an endpoint of some supported range.
pub open spec fn rate_in_configs(configs: Seq<(u16, u32, u32)>, r: u32) -> bool {
    exists|i: int| 0 <= i < configs.len() && (configs[i].1 == r || configs[i].2 == r)
}

/// Inserts `x` into a strictly sorted vector, keeping it strictly sorted;
/// a present value is left alone.
fn insert_sorted(v: &mut Vec<u32>, x: u32)
    requires
        sorted_unique(old(v)@),
    ensures
        sorted_unique(final (v)@),
        forall|r: u32| final (v)@.contains(r) <==> (old(v)@.contains(r) || r == x),
{
    let mut pos: usize = 0;
    while pos < v.len() && v[pos] < x
        invariant
            pos <= v@.len(),
            sorted_unique(v@),
            v@ == old(v)@,
            forall|j: int| 0 <= j < pos ==> v@[j] < x,
        decreases v@.len() - pos,
    {
        pos += 1;
    }
    if pos < v.len() && v[pos] == x {
        proof {
            assert(v@.contains(x)) by {
                assert(v@[pos as int] == x);
            }
            assert(forall|r: u32| v@.contains(r) <==> (old(v)@.contains(r) || r == x));
        }
        return;
    }
    proof {
        assert(forall|j: int| pos <= j < v@.len() ==> v@[j] > x) by {
            assert(forall|j: int| pos < j < v@.len() ==> v@[j] > v@[pos as int]);
        }
    }
    let ghost pre = v@;
    v.insert(pos, x);
    proof {
        assert(v@ =~= pre.subrange(0, pos as int) + seq![x] + pre.subrange(
            pos as int,
            pre.len() as int,
        ));
        assert forall|r: u32| v@.contains(r) <==> (pre.contains(r) || r == x) by {
            if v@.contains(r) {
                let k = choose|k: int| 0 <= k < v@.len() && v@[k] == r;
                if k < pos {
                    assert(pre[k] == r);
                } else if k == pos {
                } else {
                    assert(pre[k - 1] == r);
                }
            }
            if pre.contains(r) {
                let k = choose|k: int| 0 <= k < pre.len() && pre[k] == r;
                if k < pos {
                    assert(v@[k] == r);
                } else {
                    assert(v@[k + 1] == r);
                }
            }
            if r == x {
                assert(v@[pos as int] == r);
            }
        }
        assert(pre == old(v)@);
        assert(forall|r: u32| v@.contains(r) <==> (old(v)@.contains(r) || r == x));
    }
}

/// Builds one device descriptor from its name and the raw input
/// configurations `(channels, lowest rate, highest rate)`: the most channels
/// offered, and the sorted set of the ranges' endpoints.
pub fn device_info_from_configs(name: String, configs: &Vec<(u16, u32, u32)>) -> (d: CaptureDeviceInfo)
    ensures
        d.id@ == name@,
        d.name@ == name@,
        d.channels == max_channels(configs@, configs@.len() as nat),
        sorted_unique(d.sample_rates@),
        forall|r: u32| d.sample_rates@.contains(r) <==> rate_in_configs(configs@, r),
{
    let mut channels: u16 = 0;
    let mut rates: Vec<u32> = Vec::new();
    let mut i: usize = 0;
    while i < configs.len()
        invariant
            i <= configs@.len(),
            channels == max_channels(configs@, i as nat),
            sorted_unique(rates@),
            forall|r: u32| rates@.contains(r) <==> rate_in_configs(configs@.subrange(0, i as int), r),
        decreases configs@.len() - i,
    {
        let (ch, min, max) = configs[i];
        if ch > channels {
            channels = ch;
        }
        insert_sorted(&mut rates, min);
        insert_sorted(&mut rates, max);
        proof {
            let pre = configs@.subrange(0, i as int);
            let cur = configs@.subrange(0, i + 1);
            assert(cur.drop_last() =~= pre);
            assert(cur[i as int] == configs@[i as int]);
            assert forall|r: u32| rates@.contains(r) <==> rate_in_configs(cur, r) by {
                if rate_in_configs(cur, r) {
                    let k = choose|k: int| 0 <= k < cur.len() && (cur[k].1 == r || cur[k].2 == r);
                    if k < i {
                        assert(rate_in_configs(pre, r));
                    }
                }
                if rate_in_configs(pre, r) {
                    let k = choose|k: int| 0 <= k < pre.len() && (pre[k].1 == r || pre[k].2 == r);
                    assert(cur[k].1 == r || cur[k].2 == r);
                }
            }
        }
        i += 1;
    }
    proof {
        assert(configs@.subrange(0, configs@.len() as int) =~= configs@);
    }
    CaptureDeviceInfo { id: name.clone(), name, channels, sample_rates: rates }
}

} // verus!
