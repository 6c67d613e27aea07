use vstd::prelude::*;
use vstd::string::StringSliceAdditionalSpecFns;

verus! {

/// The character of one decimal digit.
pub open spec fn digit_char(d: u8) -> char
    recommends
        d < 10,
{
    ((48 + d) as u8) as char
}

/// The decimal spelling of `n`, most significant digit first.
pub open spec fn u64_dec_chars(n: u64) -> Seq<char>
    decreases n,
{
    if n < 10 {
        seq![digit_char(n as u8)]
    } else {
        u64_dec_chars(n / 10).push(digit_char((n % 10) as u8))
    }
}

/// The characters of a digit stack read back in reverse (digits are pushed
/// least significant first).
pub open spec fn rev_digit_chars(ds: Seq<u8>) -> Seq<char> {
    Seq::new(ds.len(), |i: int| digit_char(ds[ds.len() - 1 - i]))
}

/// Relies on `String::from_utf8`: bytes below 128 are valid UTF-8 and decode
/// to themselves, one character per byte.
#[verifier::external_body]
pub(crate) fn ascii_to_string(bytes: Vec<u8>) -> (r: String)
    requires
        forall|i: int| 0 <= i < bytes@.len() ==> bytes@[i] < 128,
    ensures
        r@.len() == bytes@.len(),
        forall|i: int| 0 <= i < bytes@.len() ==> r@[i] == bytes@[i] as char,
{
    match String::from_utf8(bytes) {
        Ok(s) => s,
        Err(_) => String::new(),
    }
}

/// Relies on `String::from_utf8`: it succeeds exactly on valid UTF-8, and
/// the string then holds those very bytes.
#[verifier::external_body]
pub(crate) fn string_from_utf8(bytes: Vec<u8>) -> (r: Option<String>)
    ensures
        match r {
            Some(s) => vstd::utf8::encode_utf8(s@) == bytes@,
            None => !vstd::utf8::valid_utf8(bytes@),
        },
{
    match String::from_utf8(bytes) {
        Ok(s) => Some(s),
        Err(_) => None,
    }
}

/// True when the two strings spell the same characters.
pub fn str_eq_lit(s: &str, lit: &str) -> (r: bool)
    ensures
        r == (s@ == lit@),
{
    let n = s.unicode_len();
    let m = lit.unicode_len();
    if n != m {
        proof {
            assert(s@.len() != lit@.len());
        }
        return false;
    }
    let mut i: usize = 0;
    while i < n
        invariant
            n == s@.len(),
            s@.len() == lit@.len(),
            i <= n,
            forall|j: int| 0 <= j < i ==> s@[j] == lit@[j],
        decreases n - i,
    {
        if s.get_char(i) != lit.get_char(i) {
            proof {
                assert(s@[i as int] != lit@[i as int]);
            }
            return false;
        }
        i += 1;
    }
    proof {
        assert(s@ =~= lit@);
    }
    true
}

/// True when `s` begins with the characters of `prefix`.
pub fn str_starts_with(s: &str, prefix: &str) -> (r: bool)
    ensures
        r == (s@.len() >= prefix@.len() && s@.subrange(0, prefix@.len() as int) == prefix@),
{
    let n = s.unicode_len();
    let m = prefix.unicode_len();
    if n < m {
        return false;
    }
    let mut i: usize = 0;
    while i < m
        invariant
            n == s@.len(),
            m == prefix@.len(),
            m <= n,
            i <= m,
            forall|j: int| 0 <= j < i ==> s@[j] == prefix@[j],
        decreases m - i,
    {
        if s.get_char(i) != prefix.get_char(i) {
            proof {
                assert(s@.subrange(0, prefix@.len() as int)[i as int] != prefix@[i as int]);
            }
            return false;
        }
        i += 1;
    }
    proof {
        assert(s@.subrange(0, prefix@.len() as int) =~= prefix@);
    }
    true
}

/// The characters of `s` after its prefix.
pub fn str_suffix_after(s: &str, prefix: &str) -> (r: String)
    requires
        s@.len() >= prefix@.len(),
    ensures
        r@ == s@.subrange(prefix@.len() as int, s@.len() as int),
{
    let n = s.unicode_len();
    let m = prefix.unicode_len();
    s.substring_char(m, n).to_owned()
}

/// `n` written in decimal.
pub fn u64_to_dec_string(n: u64) -> (s: String)
    ensures
        s@ == u64_dec_chars(n),
{
    let mut digits: Vec<u8> = Vec::new();
    let mut m: u64 = n;
    while m >= 10
        invariant
            u64_dec_chars(n) =~= u64_dec_chars(m) + rev_digit_chars(digits@),
            forall|j: int| 0 <= j < digits@.len() ==> digits@[j] < 10,
        decreases m,
    {
        let ghost pre = digits@;
        digits.push((m % 10) as u8);
        proof {
            assert(u64_dec_chars(m) =~= u64_dec_chars(m / 10).push(digit_char((m % 10) as u8)));
            assert(rev_digit_chars(digits@) =~= seq![digit_char((m % 10) as u8)]
                + rev_digit_chars(pre));
            assert(u64_dec_chars(m / 10) + rev_digit_chars(digits@) =~= u64_dec_chars(m)
                + rev_digit_chars(pre));
        }
        m = m / 10;
    }
    let ghost pre = digits@;
    digits.push(m as u8);
    proof {
        assert(u64_dec_chars(m) =~= seq![digit_char(m as u8)]);
        assert(rev_digit_chars(digits@) =~= seq![digit_char(m as u8)] + rev_digit_chars(pre));
        assert(u64_dec_chars(n) =~= rev_digit_chars(digits@));
    }
    let count = digits.len();
    let mut bytes: Vec<u8> = Vec::new();
    let mut i: usize = 0;
    while i < count
        invariant
            count == digits@.len(),
            i <= count,
            forall|j: int| 0 <= j < digits@.len() ==> digits@[j] < 10,
            bytes@.len() == i,
            forall|j: int| 0 <= j < i ==> bytes@[j] == (48 + digits@[count - 1 - j]) as u8,
        decreases count - i,
    {
        bytes.push(48 + digits[count - 1 - i]);
        i += 1;
    }
    proof {
        assert(forall|j: int| 0 <= j < bytes@.len() ==> bytes@[j] < 128);
    }
    let s = ascii_to_string(bytes);
    proof {
        assert(s@ =~= u64_dec_chars(n));
    }
    s
}

} // verus!
