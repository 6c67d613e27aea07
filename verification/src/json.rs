use vstd::prelude::*;
use vstd::string::StringSliceAdditionalSpecFns;

verus! {

// Byte names used throughout: 34 is `"`, 92 is `\`, 47 is `/`.

pub open spec fn is_digit_byte(b: u8) -> bool {
    48 <= b <= 57
}

/// Uppercase hex digit for a value below 16.
pub open spec fn hex_digit(d: u8) -> u8
    recommends
        d < 16,
{
    if d < 10 {
        (48 + d) as u8
    } else {
        (55 + d) as u8
    }
}

/// The value a hex digit byte stands for.
pub open spec fn hex_val(b: u8) -> Option<u8> {
    if 48 <= b <= 57 {
        Some((b - 48) as u8)
    } else if 65 <= b <= 70 {
        Some((b - 55) as u8)
    } else if 97 <= b <= 102 {
        Some((b - 87) as u8)
    } else {
        None
    }
}

/// How one content byte is written inside a quoted string: quote and
/// backslash are backslash-escaped, the named controls take their short
/// forms, any other control becomes `\u00XX`, and the rest stand as
/// themselves.
pub open spec fn esc_byte(b: u8) -> Seq<u8> {
    if b == 34 {
        seq![92u8, 34u8]
    } else if b == 92 {
        seq![92u8, 92u8]
    } else if b == 8 {
        seq![92u8, 98u8]
    } else if b == 9 {
        seq![92u8, 116u8]
    } else if b == 10 {
        seq![92u8, 110u8]
    } else if b == 12 {
        seq![92u8, 102u8]
    } else if b == 13 {
        seq![92u8, 114u8]
    } else if b < 32 {
        seq![92u8, 117u8, 48u8, 48u8, hex_digit(b / 16), hex_digit(b % 16)]
    } else {
        seq![b]
    }
}

pub open spec fn esc_bytes(s: Seq<u8>) -> Seq<u8>
    decreases s.len(),
{
    if s.len() == 0 {
        Seq::<u8>::empty()
    } else {
        esc_byte(s[0]) + esc_bytes(s.drop_first())
    }
}

/// A quoted, escaped string: the same form serves the JSON bodies and the
/// identity file.
pub open spec fn quoted(s: Seq<u8>) -> Seq<u8> {
    seq![34u8] + esc_bytes(s) + seq![34u8]
}

pub proof fn lemma_esc_bytes_push(s: Seq<u8>, b: u8)
    ensures
        esc_bytes(s.push(b)) =~= esc_bytes(s) + esc_byte(b),
    decreases s.len(),
{
    if s.len() == 0 {
        assert(s.push(b)[0] == b);
        assert(s.push(b).drop_first() =~= Seq::<u8>::empty());
        assert(esc_bytes(s.push(b)) == esc_byte(b) + esc_bytes(Seq::<u8>::empty()));
        assert(esc_bytes(s.push(b)) =~= esc_bytes(s) + esc_byte(b));
    } else {
        assert(s.push(b)[0] == s[0]);
        assert(s.push(b).drop_first() =~= s.drop_first().push(b));
        lemma_esc_bytes_push(s.drop_first(), b);
        assert(esc_byte(s[0]) + (esc_bytes(s.drop_first()) + esc_byte(b)) =~= (esc_byte(s[0])
            + esc_bytes(s.drop_first())) + esc_byte(b));
    }
}

fn push_hex_digit(out: &mut Vec<u8>, d: u8)
    requires
        d < 16,
    ensures
        final (out)@ == old(out)@.push(hex_digit(d)),
{
    if d < 10 {
        out.push(48 + d);
    } else {
        out.push(55 + d);
    }
}

/// Appends `quoted(s.as bytes)` to `out`.
pub fn push_quoted(out: &mut Vec<u8>, s: &str)
    ensures
        final (out)@ == old(out)@ + quoted(s.spec_bytes()),
{
    let bytes = s.as_bytes();
    out.push(34);
    let mut i: usize = 0;
    while i < bytes.len()
        invariant
            bytes@ == s.spec_bytes(),
            i <= bytes@.len(),
            out@ == old(out)@ + seq![34u8] + esc_bytes(bytes@.subrange(0, i as int)),
        decreases bytes@.len() - i,
    {
        let ghost pre = bytes@.subrange(0, i as int);
        let b = bytes[i];
        if b == 34 {
            out.push(92);
            out.push(34);
        } else if b == 92 {
            out.push(92);
            out.push(92);
        } else if b == 8 {
            out.push(92);
            out.push(98);
        } else if b == 9 {
            out.push(92);
            out.push(116);
        } else if b == 10 {
            out.push(92);
            out.push(110);
        } else if b == 12 {
            out.push(92);
            out.push(102);
        } else if b == 13 {
            out.push(92);
            out.push(114);
        } else if b < 32 {
            out.push(92);
            out.push(117);
            out.push(48);
            out.push(48);
            push_hex_digit(out, b / 16);
            push_hex_digit(out, b % 16);
        } else {
            out.push(b);
        }
        proof {
            lemma_esc_bytes_push(pre, b);
            assert(bytes@.subrange(0, i + 1) =~= pre.push(bytes@[i as int]));
        }
        i += 1;
    }
    out.push(34);
    proof {
        assert(bytes@.subrange(0, bytes@.len() as int) =~= bytes@);
        assert(final (out)@ =~= old(out)@ + quoted(s.spec_bytes()));
    }
}

/// The short escapes a parser takes back to their bytes.
pub open spec fn unesc_byte(e: u8) -> Option<u8> {
    if e == 34 {
        Some(34u8)
    } else if e == 92 {
        Some(92u8)
    } else if e == 47 {
        Some(47u8)
    } else if e == 98 {
        Some(8u8)
    } else if e == 116 {
        Some(9u8)
    } else if e == 110 {
        Some(10u8)
    } else if e == 102 {
        Some(12u8)
    } else if e == 114 {
        Some(13u8)
    } else {
        None
    }
}

/// What a `\u00XX`-style escape at `pos` (pointing at the `u`) denotes:
/// four hex digits naming a byte below 128.
pub open spec fn spec_u_escape(bs: Seq<u8>, pos: int) -> Option<u8> {
    if pos + 5 <= bs.len() {
        match (hex_val(bs[pos + 1]), hex_val(bs[pos + 2]), hex_val(bs[pos + 3]), hex_val(
            bs[pos + 4],
        )) {
            (Some(h3), Some(h2), Some(h1), Some(h0)) => {
                let v = (h3 as int) * 4096 + (h2 as int) * 256 + (h1 as int) * 16 + h0;
                if v < 128 {
                    Some(v as u8)
                } else {
                    None
                }
            },
            _ => None,
        }
    } else {
        None
    }
}

/// The body of a quoted string from `pos` (just past the opening quote) to
/// its closing quote: the content bytes and the index just past the quote.
/// Raw control bytes and unknown or non-ASCII escapes are refused.
pub open spec fn spec_parse_str_body(bs: Seq<u8>, pos: int) -> Option<(Seq<u8>, int)>
    decreases bs.len() - pos,
{
    if pos < 0 || pos >= bs.len() {
        None
    } else if bs[pos] == 34 {
        Some((Seq::<u8>::empty(), pos + 1))
    } else if bs[pos] == 92 {
        if pos + 1 >= bs.len() {
            None
        } else if bs[pos + 1] == 117 {
            match spec_u_escape(bs, pos + 1) {
                Some(b) => match spec_parse_str_body(bs, pos + 6) {
                    Some(p) => Some((seq![b] + p.0, p.1)),
                    None => None,
                },
                None => None,
            }
        } else {
            match unesc_byte(bs[pos + 1]) {
                Some(b) => match spec_parse_str_body(bs, pos + 2) {
                    Some(p) => Some((seq![b] + p.0, p.1)),
                    None => None,
                },
                None => None,
            }
        }
    } else if bs[pos] < 32 {
        None
    } else {
        match spec_parse_str_body(bs, pos + 1) {
            Some(p) => Some((seq![bs[pos]] + p.0, p.1)),
            None => None,
        }
    }
}

/// A quoted string at `pos`: content bytes and the index just past it.
pub open spec fn spec_parse_quoted(bs: Seq<u8>, pos: int) -> Option<(Seq<u8>, int)> {
    if 0 <= pos < bs.len() && bs[pos] == 34 {
        spec_parse_str_body(bs, pos + 1)
    } else {
        None
    }
}

pub proof fn lemma_parse_str_body_advances(bs: Seq<u8>, pos: int)
    ensures
        spec_parse_str_body(bs, pos) matches Some(p) ==> pos < p.1 <= bs.len(),
    decreases bs.len() - pos,
{
    if 0 <= pos < bs.len() {
        if bs[pos] == 92 {
            if pos + 1 < bs.len() && bs[pos + 1] == 117 {
                if spec_u_escape(bs, pos + 1) is Some {
                    lemma_parse_str_body_advances(bs, pos + 6);
                }
            } else if pos + 2 <= bs.len() {
                lemma_parse_str_body_advances(bs, pos + 2);
            }
        } else {
            lemma_parse_str_body_advances(bs, pos + 1);
        }
    }
}

fn hex_val_exec(b: u8) -> (r: Option<u8>)
    ensures
        r == hex_val(b),
{
    if 48 <= b && b <= 57 {
        Some(b - 48)
    } else if 65 <= b && b <= 70 {
        Some(b - 55)
    } else if 97 <= b && b <= 102 {
        Some(b - 87)
    } else {
        None
    }
}

/// Reads a quoted string at `pos`; the content bytes and the index just past
/// the closing quote.
pub fn parse_quoted(bs: &Vec<u8>, pos: usize) -> (r: Option<(Vec<u8>, usize)>)
    ensures
        match r {
            Some(p) => spec_parse_quoted(bs@, pos as int) == Some((p.0@, p.1 as int)) && pos
                < p.1 <= bs@.len(),
            None => spec_parse_quoted(bs@, pos as int) is None,
        },
{
    if !(pos < bs.len() && bs[pos] == 34) {
        return None;
    }
    let mut acc: Vec<u8> = Vec::new();
    let mut cur: usize = pos + 1;
    loop
        invariant
            pos < bs@.len(),
            bs@[pos as int] == 34,
            pos + 1 <= cur <= bs@.len() + 1,
            ({
                let whole = spec_parse_str_body(bs@, pos + 1);
                match spec_parse_str_body(bs@, cur as int) {
                    Some(p) => whole == Some((acc@ + p.0, p.1)),
                    None => whole is None,
                }
            }),
        decreases bs@.len() + 1 - cur,
    {
        if cur >= bs.len() {
            proof {
                assert(spec_parse_str_body(bs@, cur as int) is None);
            }
            return None;
        }
        let b = bs[cur];
        if b == 34 {
            proof {
                let whole = spec_parse_str_body(bs@, pos + 1);
                assert(spec_parse_str_body(bs@, cur as int) == Some(
                    (Seq::<u8>::empty(), cur + 1),
                ));
                assert(acc@ + Seq::<u8>::empty() =~= acc@);
                lemma_parse_str_body_advances(bs@, pos + 1);
            }
            return Some((acc, cur + 1));
        } else if b == 92 {
            if cur + 1 >= bs.len() {
                return None;
            }
            let e = bs[cur + 1];
            if e == 117 {
                if bs.len() - cur < 6 {
                    proof {
                        assert(spec_u_escape(bs@, cur + 1) is None);
                    }
                    return None;
                }
                let h3 = hex_val_exec(bs[cur + 2]);
                let h2 = hex_val_exec(bs[cur + 3]);
                let h1 = hex_val_exec(bs[cur + 4]);
                let h0 = hex_val_exec(bs[cur + 5]);
                match (h3, h2, h1, h0) {
                    (Some(a3), Some(a2), Some(a1), Some(a0)) => {
                        let v: u32 = (a3 as u32) * 4096 + (a2 as u32) * 256 + (a1 as u32) * 16
                            + (a0 as u32);
                        if v >= 128 {
                            return None;
                        }
                        let ghost pre = acc@;
                        acc.push(v as u8);
                        proof {
                            let whole = spec_parse_str_body(bs@, pos + 1);
                            assert(spec_u_escape(bs@, cur + 1) == Some(v as u8));
                            assert(acc@ =~= pre.push(v as u8));
                            match spec_parse_str_body(bs@, cur + 6) {
                                Some(p) => {
                                    assert(spec_parse_str_body(bs@, cur as int) == Some(
                                        (seq![v as u8] + p.0, p.1),
                                    ));
                                    assert(pre + (seq![v as u8] + p.0) =~= acc@ + p.0);
                                },
                                None => {
                                    assert(spec_parse_str_body(bs@, cur as int) is None);
                                },
                            }
                        }
                        cur = cur + 6;
                    },
                    _ => {
                        proof {
                            assert(spec_u_escape(bs@, cur + 1) is None);
                        }
                        return None;
                    },
                }
            } else {
                let ub = match e {
                    34 => Some(34u8),
                    92 => Some(92u8),
                    47 => Some(47u8),
                    98 => Some(8u8),
                    116 => Some(9u8),
                    110 => Some(10u8),
                    102 => Some(12u8),
                    114 => Some(13u8),
                    _ => None,
                };
                proof {
                    assert(ub == unesc_byte(e));
                }
                match ub {
                    Some(u) => {
                        let ghost pre = acc@;
                        acc.push(u);
                        proof {
                            assert(acc@ =~= pre.push(u));
                            match spec_parse_str_body(bs@, cur + 2) {
                                Some(p) => {
                                    assert(spec_parse_str_body(bs@, cur as int) == Some(
                                        (seq![u] + p.0, p.1),
                                    ));
                                    assert(pre + (seq![u] + p.0) =~= acc@ + p.0);
                                },
                                None => {
                                    assert(spec_parse_str_body(bs@, cur as int) is None);
                                },
                            }
                        }
                        cur = cur + 2;
                    },
                    None => {
                        return None;
                    },
                }
            }
        } else if b < 32 {
            return None;
        } else {
            let ghost pre = acc@;
            acc.push(b);
            proof {
                assert(acc@ =~= pre.push(b));
                match spec_parse_str_body(bs@, cur + 1) {
                    Some(p) => {
                        assert(spec_parse_str_body(bs@, cur as int) == Some((seq![b] + p.0, p.1)));
                        assert(pre + (seq![b] + p.0) =~= acc@ + p.0);
                    },
                    None => {
                        assert(spec_parse_str_body(bs@, cur as int) is None);
                    },
                }
            }
            cur = cur + 1;
        }
    }
}

/// Reading a quoted string back from anywhere it was written gives the
/// content back and stops just past it: the string codec round-trips.
pub proof fn lemma_parse_quoted_round(bs: Seq<u8>, pos: int, s: Seq<u8>)
    requires
        0 <= pos,
        pos + quoted(s).len() <= bs.len(),
        bs.subrange(pos, pos + quoted(s).len()) == quoted(s),
    ensures
        spec_parse_quoted(bs, pos) == Some((s, pos + quoted(s).len())),
{
    assert(bs[pos] == 34) by {
        assert(quoted(s)[0] == 34u8);
        assert(bs.subrange(pos, pos + quoted(s).len())[0] == bs[pos]);
    }
    assert(bs.subrange(pos + 1, pos + 1 + esc_bytes(s).len() + 1) =~= esc_bytes(s) + seq![
        34u8,
    ]) by {
        assert forall|k: int| 0 <= k < esc_bytes(s).len() + 1 implies bs.subrange(
            pos + 1,
            pos + 1 + esc_bytes(s).len() + 1,
        )[k] == (esc_bytes(s) + seq![34u8])[k] by {
            assert(bs.subrange(pos, pos + quoted(s).len())[k + 1] == bs[pos + 1 + k]);
            assert(quoted(s)[k + 1] == (esc_bytes(s) + seq![34u8])[k]);
        }
    }
    lemma_parse_body_round(bs, pos + 1, s);
}

proof fn lemma_parse_body_round(bs: Seq<u8>, pos: int, s: Seq<u8>)
    requires
        1 <= pos,
        pos + esc_bytes(s).len() + 1 <= bs.len(),
        bs.subrange(pos, pos + esc_bytes(s).len() + 1) == esc_bytes(s) + seq![34u8],
    ensures
        spec_parse_str_body(bs, pos) == Some((s, pos + esc_bytes(s).len() + 1)),
    decreases s.len(),
{
    let tail = esc_bytes(s) + seq![34u8];
    if s.len() == 0 {
        assert(bs[pos] == 34) by {
            assert(tail[0] == 34u8);
            assert(bs.subrange(pos, pos + tail.len() as int)[0] == bs[pos]);
        }
    } else {
        let e = esc_byte(s[0]);
        let rest = s.drop_first();
        assert(esc_bytes(s) == e + esc_bytes(rest));
        assert forall|k: int| 0 <= k < e.len() implies bs[pos + k] == e[k] by {
            assert(bs.subrange(pos, pos + tail.len() as int)[k] == bs[pos + k]);
            assert(tail[k] == e[k]);
        }
        assert(bs.subrange(pos + e.len(), pos + e.len() + esc_bytes(rest).len() + 1)
            =~= esc_bytes(rest) + seq![34u8]) by {
            assert forall|k: int| 0 <= k < esc_bytes(rest).len() + 1 implies bs.subrange(
                pos + e.len(),
                pos + e.len() + esc_bytes(rest).len() + 1,
            )[k] == (esc_bytes(rest) + seq![34u8])[k] by {
                assert(bs.subrange(pos, pos + tail.len() as int)[e.len() + k] == bs[pos + e.len()
                    + k]);
                assert(tail[e.len() + k] == (esc_bytes(rest) + seq![34u8])[k]);
            }
        }
        lemma_parse_body_round(bs, pos + e.len(), rest);
        let b = s[0];
        if b == 34 || b == 92 {
            assert(bs[pos] == 92 && bs[pos + 1] == b);
            assert(unesc_byte(b) == Some(b));
            assert(seq![b] + rest =~= s);
        } else if b == 8 || b == 9 || b == 10 || b == 12 || b == 13 {
            assert(bs[pos] == 92);
            assert(unesc_byte(bs[pos + 1]) == Some(b));
            assert(seq![b] + rest =~= s);
        } else if b < 32 {
            assert(bs[pos] == 92 && bs[pos + 1] == 117);
            assert(bs[pos + 2] == 48 && bs[pos + 3] == 48);
            assert(bs[pos + 4] == hex_digit(b / 16) && bs[pos + 5] == hex_digit(b % 16));
            assert(hex_val(hex_digit(b / 16)) == Some((b / 16) as u8));
            assert(hex_val(hex_digit(b % 16)) == Some((b % 16) as u8));
            assert(spec_u_escape(bs, pos + 1) == Some(b)) by {
                assert((0 as int) * 4096 + (0 as int) * 256 + ((b / 16) as int) * 16 + (b % 16)
                    == b as int);
            }
            assert(seq![b] + rest =~= s);
        } else {
            assert(bs[pos + 0] == e[0]);
            assert(e[0] == b);
            assert(seq![b] + rest =~= s);
        }
    }
}

/// Powers of ten.
pub open spec fn pow10(k: nat) -> int
    decreases k,
{
    if k == 0 {
        1
    } else {
        10 * pow10((k - 1) as nat)
    }
}

/// The decimal digits of `n`, most significant first.
pub open spec fn dec_bytes(n: u64) -> Seq<u8>
    decreases n,
{
    if n < 10 {
        seq![(48 + n) as u8]
    } else {
        dec_bytes(n / 10).push((48 + n % 10) as u8)
    }
}

/// The first index at or past `pos` that does not hold a digit.
pub open spec fn digits_end(bs: Seq<u8>, pos: int) -> int
    decreases bs.len() - pos,
{
    if 0 <= pos < bs.len() && is_digit_byte(bs[pos]) {
        digits_end(bs, pos + 1)
    } else {
        pos
    }
}

/// The value of the digits in `[pos, end)`.
pub open spec fn dec_val(bs: Seq<u8>, pos: int, end: int) -> int
    decreases end - pos,
{
    if pos >= end {
        0
    } else {
        dec_val(bs, pos, end - 1) * 10 + (bs[end - 1] - 48)
    }
}

/// An unsigned decimal number at `pos`: its value and the index just past
/// its digits. Digit runs longer than twenty bytes and values over `u64` are
/// refused (a canonical number has no leading zeros, so no in-range value is
/// written longer).
pub open spec fn spec_parse_u64(bs: Seq<u8>, pos: int) -> Option<(u64, int)> {
    if 0 <= pos < bs.len() && is_digit_byte(bs[pos]) {
        let end = digits_end(bs, pos);
        if end - pos <= 20 && dec_val(bs, pos, end) <= u64::MAX {
            Some((dec_val(bs, pos, end) as u64, end))
        } else {
            None
        }
    } else {
        None
    }
}

pub proof fn lemma_digits_end_bounds(bs: Seq<u8>, pos: int)
    requires
        0 <= pos <= bs.len(),
    ensures
        pos <= digits_end(bs, pos) <= bs.len(),
        forall|j: int| pos <= j < digits_end(bs, pos) ==> is_digit_byte(bs[j]),
        digits_end(bs, pos) < bs.len() ==> !is_digit_byte(bs[digits_end(bs, pos)]),
    decreases bs.len() - pos,
{
    if pos < bs.len() && is_digit_byte(bs[pos]) {
        lemma_digits_end_bounds(bs, pos + 1);
    }
}

proof fn lemma_dec_val_nonneg(bs: Seq<u8>, pos: int, end: int)
    requires
        forall|j: int| pos <= j < end ==> is_digit_byte(bs[j]),
    ensures
        dec_val(bs, pos, end) >= 0,
    decreases end - pos,
{
    if pos < end {
        lemma_dec_val_nonneg(bs, pos, end - 1);
    }
}

proof fn lemma_dec_val_bound(bs: Seq<u8>, pos: int, end: int)
    requires
        pos <= end,
        forall|j: int| pos <= j < end ==> is_digit_byte(bs[j]),
    ensures
        0 <= dec_val(bs, pos, end) < pow10((end - pos) as nat),
    decreases end - pos,
{
    if pos >= end {
    } else {
        lemma_dec_val_bound(bs, pos, end - 1);
        let v = dec_val(bs, pos, end - 1);
        let p = pow10((end - 1 - pos) as nat);
        assert(v * 10 + (bs[end - 1] - 48) < 10 * p) by (nonlinear_arith)
            requires
                0 <= v < p,
                0 <= bs[end - 1] - 48 < 10,
        ;
    }
}

/// Reads an unsigned decimal number at `pos`.
pub fn parse_u64(bs: &Vec<u8>, pos: usize) -> (r: Option<(u64, usize)>)
    ensures
        match r {
            Some(p) => spec_parse_u64(bs@, pos as int) == Some((p.0, p.1 as int)) && pos < p.1
                <= bs@.len(),
            None => spec_parse_u64(bs@, pos as int) is None,
        },
{
    if !(pos < bs.len() && 48 <= bs[pos] && bs[pos] <= 57) {
        return None;
    }
    proof {
        lemma_digits_end_bounds(bs@, pos as int);
    }
    let mut end: usize = pos;
    while end < bs.len() && 48 <= bs[end] && bs[end] <= 57
        invariant
            pos <= end <= bs@.len(),
            forall|j: int| pos <= j < end ==> is_digit_byte(bs@[j]),
            digits_end(bs@, pos as int) == digits_end(bs@, end as int),
        decreases bs@.len() - end,
    {
        end += 1;
    }
    proof {
        assert(digits_end(bs@, end as int) == end);
        lemma_dec_val_bound(bs@, pos as int, end as int);
    }
    if end - pos > 20 {
        return None;
    }
    let mut v: u128 = 0;
    let mut cur: usize = pos;
    while cur < end
        invariant
            pos <= cur <= end <= bs@.len(),
            end - pos <= 20,
            forall|j: int| pos <= j < end ==> is_digit_byte(bs@[j]),
            v == dec_val(bs@, pos as int, cur as int),
            v < pow10((cur - pos) as nat),
        decreases end - cur,
    {
        proof {
            lemma_pow10_mono(((cur - pos)) as nat, 19);
            assert(pow10(20) == 100_000_000_000_000_000_000) by {
                reveal_with_fuel(pow10, 21);
            }
            lemma_pow10_mono(((cur - pos) + 1) as nat, 20);
            let p = pow10((cur - pos) as nat);
            assert(v * 10 + 9 < 10 * p) by (nonlinear_arith)
                requires
                    0 <= v < p,
            ;
        }
        let d = bs[cur] - 48;
        v = v * 10 + d as u128;
        cur += 1;
    }
    if v > u64::MAX as u128 {
        return None;
    }
    Some((v as u64, end))
}

proof fn lemma_pow10_mono(a: nat, b: nat)
    requires
        a <= b,
    ensures
        pow10(a) <= pow10(b),
    decreases b,
{
    if a < b {
        lemma_pow10_mono(a, (b - 1) as nat);
        assert(pow10((b - 1) as nat) >= 1) by {
            lemma_pow10_pos((b - 1) as nat);
        }
    }
}

proof fn lemma_pow10_pos(k: nat)
    ensures
        pow10(k) >= 1,
    decreases k,
{
    if k > 0 {
        lemma_pow10_pos((k - 1) as nat);
    }
}

/// Appends `n` in decimal.
pub fn push_u64(out: &mut Vec<u8>, n: u64)
    ensures
        final (out)@ == old(out)@ + dec_bytes(n),
{
    let mut digits: Vec<u8> = Vec::new();
    let mut m: u64 = n;
    while m >= 10
        invariant
            dec_bytes(n) =~= dec_bytes(m) + rev_bytes(digits@),
            forall|j: int| 0 <= j < digits@.len() ==> digits@[j] < 10,
        decreases m,
    {
        let ghost pre = digits@;
        digits.push((m % 10) as u8);
        proof {
            assert(rev_bytes(digits@) =~= seq![(48 + m % 10) as u8] + rev_bytes(pre));
            assert(dec_bytes(m / 10) + rev_bytes(digits@) =~= dec_bytes(m) + rev_bytes(pre));
        }
        m = m / 10;
    }
    let ghost pre = digits@;
    digits.push(m as u8);
    proof {
        assert(rev_bytes(digits@) =~= seq![(48 + m) as u8] + rev_bytes(pre));
        assert(dec_bytes(n) =~= rev_bytes(digits@));
    }
    let count = digits.len();
    let mut i: usize = 0;
    while i < count
        invariant
            count == digits@.len(),
            i <= count,
            forall|j: int| 0 <= j < digits@.len() ==> digits@[j] < 10,
            out@.len() == old(out)@.len() + i,
            out@ =~= old(out)@ + rev_bytes(digits@).subrange(0, i as int),
        decreases count - i,
    {
        bytes_push_digit(out, digits[count - 1 - i]);
        proof {
            assert(out@ =~= old(out)@ + rev_bytes(digits@).subrange(0, i + 1));
        }
        i += 1;
    }
    proof {
        assert(rev_bytes(digits@).subrange(0, count as int) =~= rev_bytes(digits@));
        assert(out@ =~= old(out)@ + dec_bytes(n));
    }
}

/// The digit characters of a digit stack read back in reverse.
pub open spec fn rev_bytes(ds: Seq<u8>) -> Seq<u8> {
    Seq::new(ds.len(), |i: int| (48 + ds[ds.len() - 1 - i]) as u8)
}

fn bytes_push_digit(out: &mut Vec<u8>, d: u8)
    requires
        d < 10,
    ensures
        final (out)@ == old(out)@.push((48 + d) as u8),
{
    out.push(48 + d);
}

/// Every digit byte of a decimal spelling is a digit.
pub proof fn lemma_dec_bytes_digits(n: u64)
    ensures
        forall|j: int| 0 <= j < dec_bytes(n).len() ==> is_digit_byte(dec_bytes(n)[j]),
        1 <= dec_bytes(n).len() <= 20,
    decreases n,
{
    if n < 10 {
    } else {
        lemma_dec_bytes_digits(n / 10);
        lemma_dec_bytes_len_bound(n);
    }
}

proof fn lemma_dec_bytes_len_pow(n: u64, k: nat)
    requires
        n < pow10(k),
        k >= 1,
    ensures
        dec_bytes(n).len() <= k,
    decreases k,
{
    if n < 10 {
    } else {
        assert(k >= 2) by {
            reveal_with_fuel(pow10, 2);
        }
        assert(n / 10 < pow10((k - 1) as nat)) by (nonlinear_arith)
            requires
                n < pow10(k),
                pow10(k) == 10 * pow10((k - 1) as nat),
                n >= 10,
        ;
        lemma_dec_bytes_len_pow(n / 10, (k - 1) as nat);
    }
}

proof fn lemma_dec_bytes_len_bound(n: u64)
    ensures
        dec_bytes(n).len() <= 20,
{
    assert(pow10(20) == 100_000_000_000_000_000_000) by {
        reveal_with_fuel(pow10, 21);
    }
    lemma_dec_bytes_len_pow(n, 20);
}

/// Reading a decimal spelling back from anywhere it was written, with no
/// digit following it, gives the value back: the number codec round-trips.
pub proof fn lemma_parse_u64_round(bs: Seq<u8>, pos: int, n: u64)
    requires
        0 <= pos,
        pos + dec_bytes(n).len() <= bs.len(),
        bs.subrange(pos, pos + dec_bytes(n).len()) == dec_bytes(n),
        pos + dec_bytes(n).len() < bs.len() ==> !is_digit_byte(bs[pos + dec_bytes(n).len()]),
    ensures
        spec_parse_u64(bs, pos) == Some((n, pos + dec_bytes(n).len())),
{
    let w = dec_bytes(n);
    let end = pos + w.len();
    lemma_dec_bytes_digits(n);
    assert forall|j: int| pos <= j < end implies is_digit_byte(bs[j]) by {
        assert(bs.subrange(pos, end)[j - pos] == bs[j]);
        assert(is_digit_byte(w[j - pos]));
    }
    lemma_digits_end_to(bs, pos, end);
    lemma_dec_val_of_dec_bytes(bs, pos, n);
    lemma_digits_end_bounds(bs, pos);
    assert(bs[pos] == w[0]) by {
        assert(bs.subrange(pos, end)[0] == bs[pos]);
    }
}

proof fn lemma_digits_end_to(bs: Seq<u8>, pos: int, end: int)
    requires
        0 <= pos <= end <= bs.len(),
        forall|j: int| pos <= j < end ==> is_digit_byte(bs[j]),
        end < bs.len() ==> !is_digit_byte(bs[end]),
    ensures
        digits_end(bs, pos) == end,
    decreases end - pos,
{
    if pos < end {
        lemma_digits_end_to(bs, pos + 1, end);
    }
}

/// A value in hundredths written as a decimal: sign, whole part, a dot and
/// one or two fraction digits (one when the hundredths end in zero).
pub open spec fn centi_bytes(v: i32) -> Seq<u8> {
    let a = if v < 0 {
        -(v as int)
    } else {
        v as int
    };
    let q = a / 100;
    let r = a % 100;
    (if v < 0 {
        seq![45u8]
    } else {
        Seq::<u8>::empty()
    }) + dec_bytes(q as u64) + seq![46u8] + (if r % 10 == 0 {
        seq![(48 + r / 10) as u8]
    } else {
        seq![(48 + r / 10) as u8, (48 + r % 10) as u8]
    })
}

/// Appends a value in hundredths as a decimal.
pub fn push_centi(out: &mut Vec<u8>, v: i32)
    ensures
        final (out)@ == old(out)@ + centi_bytes(v),
{
    let a: u32 = if v < 0 {
        (-(v as i64)) as u32
    } else {
        v as u32
    };
    if v < 0 {
        out.push(45);
    }
    let q: u32 = a / 100;
    let r: u32 = a % 100;
    push_u64(out, q as u64);
    out.push(46);
    if r % 10 == 0 {
        out.push(48 + (r / 10) as u8);
    } else {
        out.push(48 + (r / 10) as u8);
        out.push(48 + (r % 10) as u8);
    }
    proof {
        assert(final (out)@ =~= old(out)@ + centi_bytes(v));
    }
}

/// The hundredths named by the first two fraction digits in `[p, e)`.
pub open spec fn frac_centi(bs: Seq<u8>, p: int, e: int) -> int {
    if e - p >= 2 {
        (bs[p] - 48) * 10 + (bs[p + 1] - 48)
    } else {
        (bs[p] - 48) * 10
    }
}

/// A signed decimal with an optional fraction at `pos`, read in hundredths:
/// the first two fraction digits count, further ones are ignored. Values
/// outside `i32` are refused.
pub open spec fn spec_parse_centi(bs: Seq<u8>, pos: int) -> Option<(i32, int)> {
    let neg = 0 <= pos < bs.len() && bs[pos] == 45;
    let p1 = if neg {
        pos + 1
    } else {
        pos
    };
    match spec_parse_u64(bs, p1) {
        Some((ip, e1)) => {
            if e1 < bs.len() && bs[e1] == 46 {
                if e1 + 1 < bs.len() && is_digit_byte(bs[e1 + 1]) {
                    let e2 = digits_end(bs, e1 + 1);
                    let c = (ip as int) * 100 + frac_centi(bs, e1 + 1, e2);
                    let sv = if neg {
                        -c
                    } else {
                        c
                    };
                    if i32::MIN <= sv <= i32::MAX {
                        Some((sv as i32, e2))
                    } else {
                        None
                    }
                } else {
                    None
                }
            } else {
                let c = (ip as int) * 100;
                let sv = if neg {
                    -c
                } else {
                    c
                };
                if i32::MIN <= sv <= i32::MAX {
                    Some((sv as i32, e1))
                } else {
                    None
                }
            }
        },
        None => None,
    }
}

/// Reads a signed decimal at `pos` in hundredths.
pub fn parse_centi(bs: &Vec<u8>, pos: usize) -> (r: Option<(i32, usize)>)
    ensures
        match r {
            Some(p) => spec_parse_centi(bs@, pos as int) == Some((p.0, p.1 as int)) && pos < p.1
                <= bs@.len(),
            None => spec_parse_centi(bs@, pos as int) is None,
        },
{
    let neg = pos < bs.len() && bs[pos] == 45;
    let p1 = if neg {
        pos + 1
    } else {
        pos
    };
    let (ip, e1) = match parse_u64(bs, p1) {
        Some(p) => p,
        None => {
            return None;
        },
    };
    if e1 < bs.len() && bs[e1] == 46 {
        if !(e1 + 1 < bs.len() && 48 <= bs[e1 + 1] && bs[e1 + 1] <= 57) {
            return None;
        }
        proof {
            lemma_digits_end_bounds(bs@, e1 + 1);
        }
        let mut e2: usize = e1 + 1;
        while e2 < bs.len() && 48 <= bs[e2] && bs[e2] <= 57
            invariant
                e1 + 1 <= e2 <= bs@.len(),
                forall|j: int| e1 + 1 <= j < e2 ==> is_digit_byte(bs@[j]),
                digits_end(bs@, e1 + 1) == digits_end(bs@, e2 as int),
            decreases bs@.len() - e2,
        {
            e2 += 1;
        }
        proof {
            assert(digits_end(bs@, e2 as int) == e2);
        }
        let frac: i64 = if e2 - (e1 + 1) >= 2 {
            ((bs[e1 + 1] - 48) as i64) * 10 + (bs[e1 + 2] - 48) as i64
        } else {
            ((bs[e1 + 1] - 48) as i64) * 10
        };
        if ip > (i32::MAX as u64) / 100 + 1 {
            proof {
                assert((ip as int) * 100 + frac_centi(bs@, e1 + 1, e2 as int) > i32::MAX)
                    by (nonlinear_arith)
                    requires
                        ip > (i32::MAX as u64) / 100 + 1,
                        frac_centi(bs@, e1 + 1, e2 as int) >= 0,
                ;
                assert(frac_centi(bs@, e1 + 1, e2 as int) >= 0) by {
                    assert(is_digit_byte(bs@[e1 + 1]));
                }
            }
            return None;
        }
        let c: i64 = (ip as i64) * 100 + frac;
        let sv: i64 = if neg {
            -c
        } else {
            c
        };
        if sv < i32::MIN as i64 || sv > i32::MAX as i64 {
            return None;
        }
        Some((sv as i32, e2))
    } else {
        if ip > (i32::MAX as u64) / 100 + 1 {
            proof {
                assert((ip as int) * 100 > i32::MAX) by (nonlinear_arith)
                    requires
                        ip > (i32::MAX as u64) / 100 + 1,
                ;
            }
            return None;
        }
        let c: i64 = (ip as i64) * 100;
        let sv: i64 = if neg {
            -c
        } else {
            c
        };
        if sv < i32::MIN as i64 || sv > i32::MAX as i64 {
            return None;
        }
        Some((sv as i32, e1))
    }
}

/// Blank bytes inside a line: space and tab.
pub open spec fn is_sp_byte(b: u8) -> bool {
    b == 32 || b == 9
}

/// JSON whitespace: space, tab, line feed, carriage return.
pub open spec fn is_ws_byte(b: u8) -> bool {
    b == 32 || b == 9 || b == 10 || b == 13
}

/// The first index at or past `pos` that holds no space or tab.
pub open spec fn sp_end(bs: Seq<u8>, pos: int) -> int
    decreases bs.len() - pos,
{
    if 0 <= pos < bs.len() && is_sp_byte(bs[pos]) {
        sp_end(bs, pos + 1)
    } else {
        pos
    }
}

/// The first index at or past `pos` that holds no whitespace.
pub open spec fn ws_end(bs: Seq<u8>, pos: int) -> int
    decreases bs.len() - pos,
{
    if 0 <= pos < bs.len() && is_ws_byte(bs[pos]) {
        ws_end(bs, pos + 1)
    } else {
        pos
    }
}

/// Skips spaces and tabs.
pub fn skip_sp(bs: &Vec<u8>, pos: usize) -> (r: usize)
    requires
        pos <= bs@.len(),
    ensures
        r == sp_end(bs@, pos as int),
        pos <= r <= bs@.len(),
{
    let mut cur = pos;
    while cur < bs.len() && (bs[cur] == 32 || bs[cur] == 9)
        invariant
            pos <= cur <= bs@.len(),
            sp_end(bs@, pos as int) == sp_end(bs@, cur as int),
        decreases bs@.len() - cur,
    {
        cur += 1;
    }
    cur
}

/// Skips whitespace.
pub fn skip_ws(bs: &Vec<u8>, pos: usize) -> (r: usize)
    requires
        pos <= bs@.len(),
    ensures
        r == ws_end(bs@, pos as int),
        pos <= r <= bs@.len(),
{
    let mut cur = pos;
    while cur < bs.len() && (bs[cur] == 32 || bs[cur] == 9 || bs[cur] == 10 || bs[cur] == 13)
        invariant
            pos <= cur <= bs@.len(),
            ws_end(bs@, pos as int) == ws_end(bs@, cur as int),
        decreases bs@.len() - cur,
    {
        cur += 1;
    }
    cur
}

/// The index just past the next line feed, or the end of the buffer.
pub open spec fn line_skip_end(bs: Seq<u8>, pos: int) -> int
    decreases bs.len() - pos,
{
    if 0 <= pos < bs.len() {
        if bs[pos] == 10 {
            pos + 1
        } else {
            line_skip_end(bs, pos + 1)
        }
    } else {
        pos
    }
}

pub proof fn lemma_line_skip_end_bounds(bs: Seq<u8>, pos: int)
    requires
        0 <= pos < bs.len(),
    ensures
        pos < line_skip_end(bs, pos) <= bs.len(),
    decreases bs.len() - pos,
{
    if bs[pos] != 10 {
        if pos + 1 < bs.len() {
            lemma_line_skip_end_bounds(bs, pos + 1);
        } else {
            assert(line_skip_end(bs, pos + 1) == pos + 1);
        }
    }
}

/// Skips the rest of the line, past its line feed.
pub fn skip_line(bs: &Vec<u8>, pos: usize) -> (r: usize)
    requires
        pos < bs@.len(),
    ensures
        r == line_skip_end(bs@, pos as int),
        pos < r <= bs@.len(),
{
    let mut cur = pos;
    while cur < bs.len() && bs[cur] != 10
        invariant
            pos <= cur <= bs@.len(),
            line_skip_end(bs@, pos as int) == line_skip_end(bs@, cur as int),
        decreases bs@.len() - cur,
    {
        cur += 1;
    }
    if cur < bs.len() {
        cur + 1
    } else {
        proof {
            lemma_line_skip_end_bounds(bs@, pos as int);
        }
        cur
    }
}

/// Appends the bytes of `s`.
pub fn push_str_bytes(out: &mut Vec<u8>, s: &str)
    ensures
        final (out)@ == old(out)@ + s.spec_bytes(),
{
    out.extend_from_slice(s.as_bytes());
}

/// A scalar JSON value at `pos` — a string, a number, `null`, `true` or
/// `false` — skipped without interpretation: the index just past it. Nested
/// objects and arrays are not taken.
pub open spec fn spec_skip_scalar(bs: Seq<u8>, pos: int) -> Option<int> {
    if pos < 0 || pos >= bs.len() {
        None
    } else if bs[pos] == 34 {
        match spec_parse_quoted(bs, pos) {
            Some(p) => Some(p.1),
            None => None,
        }
    } else if bs[pos] == 45 || is_digit_byte(bs[pos]) {
        match spec_parse_centi(bs, pos) {
            Some(p) => Some(p.1),
            None => None,
        }
    } else if bs[pos] == 110 {
        match spec_expect(bs, pos, seq![110u8, 117u8, 108u8, 108u8]) {
            Some(e) => Some(e),
            None => None,
        }
    } else if bs[pos] == 116 {
        match spec_expect(bs, pos, seq![116u8, 114u8, 117u8, 101u8]) {
            Some(e) => Some(e),
            None => None,
        }
    } else if bs[pos] == 102 {
        match spec_expect(bs, pos, seq![102u8, 97u8, 108u8, 115u8, 101u8]) {
            Some(e) => Some(e),
            None => None,
        }
    } else {
        None
    }
}

/// Matches a fixed byte sequence at `pos`.
fn expect_bytes4(bs: &Vec<u8>, pos: usize, b0: u8, b1: u8, b2: u8, b3: u8) -> (r: Option<usize>)
    ensures
        match r {
            Some(p) => spec_expect(bs@, pos as int, seq![b0, b1, b2, b3]) == Some(p as int)
                && pos < p <= bs@.len(),
            None => spec_expect(bs@, pos as int, seq![b0, b1, b2, b3]) is None,
        },
{
    if pos < bs.len() && bs.len() - pos >= 4 && bs[pos] == b0 && bs[pos + 1] == b1 && bs[pos + 2]
        == b2 && bs[pos + 3] == b3 {
        proof {
            assert(bs@.subrange(pos as int, pos + 4) =~= seq![b0, b1, b2, b3]);
        }
        Some(pos + 4)
    } else {
        proof {
            if pos + 4 <= bs@.len() {
                let w = seq![b0, b1, b2, b3];
                if bs@.subrange(pos as int, pos + 4) == w {
                    assert(bs@[pos as int] == w[0]);
                    assert(bs@[pos + 1] == w[1]);
                    assert(bs@[pos + 2] == w[2]);
                    assert(bs@[pos + 3] == w[3]);
                    assert(bs@.subrange(pos as int, pos + 4)[0] == bs@[pos as int]);
                    assert(bs@.subrange(pos as int, pos + 4)[1] == bs@[pos + 1]);
                    assert(bs@.subrange(pos as int, pos + 4)[2] == bs@[pos + 2]);
                    assert(bs@.subrange(pos as int, pos + 4)[3] == bs@[pos + 3]);
                }
            }
        }
        None
    }
}

/// Skips one scalar value.
pub fn skip_scalar(bs: &Vec<u8>, pos: usize) -> (r: Option<usize>)
    ensures
        match r {
            Some(p) => spec_skip_scalar(bs@, pos as int) == Some(p as int) && pos < p
                <= bs@.len(),
            None => spec_skip_scalar(bs@, pos as int) is None,
        },
{
    if pos >= bs.len() {
        return None;
    }
    let b = bs[pos];
    if b == 34 {
        match parse_quoted(bs, pos) {
            Some((_, e)) => Some(e),
            None => None,
        }
    } else if b == 45 || (48 <= b && b <= 57) {
        match parse_centi(bs, pos) {
            Some((_, e)) => Some(e),
            None => None,
        }
    } else if b == 110 {
        expect_bytes4(bs, pos, 110, 117, 108, 108)
    } else if b == 116 {
        expect_bytes4(bs, pos, 116, 114, 117, 101)
    } else if b == 102 {
        match expect_bytes4(bs, pos, 102, 97, 108, 115) {
            Some(p) => {
                if p < bs.len() && bs[p] == 101 {
                    proof {
                        let w = seq![102u8, 97u8, 108u8, 115u8, 101u8];
                        assert(bs@.subrange(pos as int, pos + 5) =~= w) by {
                            assert(bs@.subrange(pos as int, pos + 4) =~= seq![
                                102u8, 97u8, 108u8, 115u8,
                            ]);
                            assert(bs@.subrange(pos as int, pos + 4)[0] == bs@[pos as int]);
                            assert(bs@.subrange(pos as int, pos + 4)[1] == bs@[pos + 1]);
                            assert(bs@.subrange(pos as int, pos + 4)[2] == bs@[pos + 2]);
                            assert(bs@.subrange(pos as int, pos + 4)[3] == bs@[pos + 3]);
                        }
                    }
                    Some(p + 1)
                } else {
                    proof {
                        let w = seq![102u8, 97u8, 108u8, 115u8, 101u8];
                        if pos + 5 <= bs@.len() && bs@.subrange(pos as int, pos + 5) == w {
                            assert(bs@.subrange(pos as int, pos + 5)[4] == bs@[pos + 4]);
                        }
                    }
                    None
                }
            },
            None => {
                proof {
                    let w = seq![102u8, 97u8, 108u8, 115u8, 101u8];
                    if pos + 5 <= bs@.len() && bs@.subrange(pos as int, pos + 5) == w {
                        assert(bs@.subrange(pos as int, pos + 4) =~= seq![
                            102u8, 97u8, 108u8, 115u8,
                        ]) by {
                            assert forall|k: int| 0 <= k < 4 implies bs@.subrange(
                                pos as int,
                                pos + 4,
                            )[k] == seq![102u8, 97u8, 108u8, 115u8][k] by {
                                assert(bs@.subrange(pos as int, pos + 5)[k] == bs@[pos + k]);
                                assert(bs@.subrange(pos as int, pos + 4)[k] == bs@[pos + k]);
                            }
                        }
                    }
                }
                None
            },
        }
    } else {
        None
    }
}

/// A fixed word at `pos`: the index just past it, or nothing.
pub open spec fn spec_expect(bs: Seq<u8>, pos: int, w: Seq<u8>) -> Option<int> {
    if 0 <= pos && pos + w.len() <= bs.len() && bs.subrange(pos, pos + w.len()) == w {
        Some(pos + w.len())
    } else {
        None
    }
}

/// Matches the bytes of `w` at `pos`.
pub fn expect_str(bs: &Vec<u8>, pos: usize, w: &str) -> (r: Option<usize>)
    ensures
        match r {
            Some(p) => spec_expect(bs@, pos as int, w.spec_bytes()) == Some(p as int) && pos
                <= p <= bs@.len(),
            None => spec_expect(bs@, pos as int, w.spec_bytes()) is None,
        },
{
    let wb = w.as_bytes();
    let n = bs.len();
    if pos > n || wb.len() > n - pos {
        return None;
    }
    let mut i: usize = 0;
    while i < wb.len()
        invariant
            wb@ == w.spec_bytes(),
            n == bs@.len(),
            pos + wb@.len() <= bs@.len(),
            i <= wb@.len(),
            forall|j: int| 0 <= j < i ==> bs@[pos + j] == wb@[j],
        decreases wb@.len() - i,
    {
        if bs[pos + i] != wb[i] {
            proof {
                assert(bs@.subrange(pos as int, pos + wb@.len()) != wb@) by {
                    assert(bs@.subrange(pos as int, pos + wb@.len())[i as int] != wb@[i as int]);
                }
            }
            return None;
        }
        i += 1;
    }
    proof {
        assert(bs@.subrange(pos as int, pos + wb@.len()) =~= wb@);
    }
    Some(pos + wb.len())
}

/// True when `v` holds exactly the bytes of `w`.
pub fn bytes_eq_str(v: &Vec<u8>, w: &str) -> (r: bool)
    ensures
        r == (v@ == w.spec_bytes()),
{
    let wb = w.as_bytes();
    if v.len() != wb.len() {
        proof {
            assert(v@.len() != wb@.len());
        }
        return false;
    }
    let mut i: usize = 0;
    while i < wb.len()
        invariant
            wb@ == w.spec_bytes(),
            v@.len() == wb@.len(),
            i <= wb@.len(),
            forall|j: int| 0 <= j < i ==> v@[j] == wb@[j],
        decreases wb@.len() - i,
    {
        if v[i] != wb[i] {
            proof {
                assert(v@[i as int] != wb@[i as int]);
            }
            return false;
        }
        i += 1;
    }
    proof {
        assert(v@ =~= wb@);
    }
    true
}

/// A word written into a buffer is found there: `expect` round-trips over
/// concatenation.
pub proof fn lemma_expect_at(bs: Seq<u8>, pos: int, w: Seq<u8>)
    requires
        0 <= pos,
        pos + w.len() <= bs.len(),
        bs.subrange(pos, pos + w.len()) == w,
    ensures
        spec_expect(bs, pos, w) == Some(pos + w.len()),
{
}

proof fn lemma_dec_val_of_dec_bytes(bs: Seq<u8>, pos: int, n: u64)
    requires
        0 <= pos,
        pos + dec_bytes(n).len() <= bs.len(),
        bs.subrange(pos, pos + dec_bytes(n).len()) == dec_bytes(n),
    ensures
        dec_val(bs, pos, pos + dec_bytes(n).len()) == n,
    decreases n,
{
    let w = dec_bytes(n);
    let end = pos + w.len();
    if n < 10 {
        assert(bs[end - 1] == w[0]) by {
            assert(bs.subrange(pos, end)[0] == bs[pos]);
        }
        assert(dec_val(bs, pos, end) == dec_val(bs, pos, end - 1) * 10 + (bs[end - 1] - 48));
    } else {
        let wp = dec_bytes(n / 10);
        assert(w == wp.push((48 + n % 10) as u8));
        assert(bs.subrange(pos, pos + wp.len() as int) =~= wp) by {
            assert forall|k: int| 0 <= k < wp.len() implies bs.subrange(
                pos,
                pos + wp.len() as int,
            )[k] == wp[k] by {
                assert(bs.subrange(pos, end)[k] == bs[pos + k]);
                assert(w[k] == wp[k]);
            }
        }
        lemma_dec_val_of_dec_bytes(bs, pos, n / 10);
        assert(bs[end - 1] == (48 + n % 10) as u8) by {
            assert(bs.subrange(pos, end)[w.len() - 1] == bs[end - 1]);
        }
    }
}

} // verus!
