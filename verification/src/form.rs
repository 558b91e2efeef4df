//! Parsing a `application/x-www-form-urlencoded` request body into the two
//! unsigned integers `n` and `m`.
//!
//! The body is split on `&` into segments, each segment on its first `=`
//! into a key and a value, and key and value are percent-decoded (`+`
//! becomes a space, `%XX` the byte `XX`). The fields named `n` and `m` must
//! each appear exactly once, with a value that is a plain decimal numeral
//! fitting in 64 bits; other fields are ignored. Every step is specified by
//! a spec function and the executable parser is proved to match it.

use vstd::prelude::*;

verus! {

/// Why a request body was rejected.
#[derive(Clone, Copy, PartialEq, Eq, Structural, Debug)]
pub enum ValidationError {
    /// The body is not well-formed form encoding (bad percent escape or a
    /// repeated `n` or `m` field).
    Malformed,
    /// The field `n` or the field `m` is absent.
    MissingField,
    /// A field is present but not a decimal numeral fitting in 64 bits.
    NonNumeric,
    /// A field parsed to zero, for which the computation is not defined.
    ZeroValue,
}

/// The two operands of a validated computation request.
#[derive(Clone, Copy, PartialEq, Eq, Structural, Debug)]
pub struct GcdParameters {
    pub n: u64,
    pub m: u64,
}

pub const AMPERSAND: u8 = 38;

pub const EQUALS_SIGN: u8 = 61;

pub const PERCENT: u8 = 37;

pub const PLUS: u8 = 43;

pub const SPACE: u8 = 32;

pub const LETTER_N: u8 = 110;

pub const LETTER_M: u8 = 109;

/// The index of the first occurrence of `c` in `s`, or `s.len()` if there
/// is none.
pub open spec fn find_byte(s: Seq<u8>, c: u8) -> nat
    decreases s.len(),
{
    if s.len() == 0 {
        0
    } else if s[0] == c {
        0
    } else {
        1 + find_byte(s.skip(1), c)
    }
}

/// `find_byte` is within bounds, lands on `c` unless `c` is absent, and
/// nothing before it is `c`.
pub proof fn lemma_find_byte(s: Seq<u8>, c: u8)
    ensures
        find_byte(s, c) <= s.len(),
        find_byte(s, c) < s.len() ==> s[find_byte(s, c) as int] == c,
        forall|i: int| 0 <= i < find_byte(s, c) ==> s[i] != c,
    decreases s.len(),
{
    if s.len() == 0 {
    } else if s[0] == c {
    } else {
        lemma_find_byte(s.skip(1), c);
        assert forall|i: int| 0 <= i < find_byte(s, c) implies s[i] != c by {
            if i > 0 {
                assert(s.skip(1)[i - 1] == s[i]);
            }
        }
    }
}

/// `find_byte` is the only index with its three properties.
proof fn lemma_find_byte_unique(s: Seq<u8>, c: u8, j: nat)
    requires
        j <= s.len(),
        j < s.len() ==> s[j as int] == c,
        forall|i: int| 0 <= i < j ==> s[i] != c,
    ensures
        find_byte(s, c) == j,
    decreases s.len(),
{
    if s.len() == 0 {
    } else if s[0] == c {
    } else {
        assert(j >= 1);
        assert forall|i: int| 0 <= i < j - 1 implies s.skip(1)[i] != c by {
            assert(s.skip(1)[i] == s[i + 1]);
        }
        if j < s.len() {
            assert(s.skip(1)[j - 1] == s[j as int]);
        }
        lemma_find_byte_unique(s.skip(1), c, (j - 1) as nat);
    }
}

pub open spec fn is_hex_digit(b: u8) -> bool {
    (48 <= b && b <= 57) || (65 <= b && b <= 70) || (97 <= b && b <= 102)
}

/// The numeric value of a hexadecimal digit.
pub open spec fn hex_val(b: u8) -> nat {
    if 48 <= b && b <= 57 {
        (b - 48) as nat
    } else if 65 <= b && b <= 70 {
        (b - 55) as nat
    } else if 97 <= b && b <= 102 {
        (b - 87) as nat
    } else {
        0
    }
}

/// Percent-decoding of form data: `+` stands for a space, `%XX` for the
/// byte with hexadecimal value `XX`, and every other byte for itself. An
/// incomplete or non-hexadecimal escape makes the input undecodable.
pub open spec fn pct_decode(s: Seq<u8>) -> Option<Seq<u8>>
    decreases s.len(),
{
    if s.len() == 0 {
        Some(Seq::<u8>::empty())
    } else if s[0] == PERCENT {
        if s.len() >= 3 && is_hex_digit(s[1]) && is_hex_digit(s[2]) {
            match pct_decode(s.skip(3)) {
                Some(t) => Some(seq![(hex_val(s[1]) * 16 + hex_val(s[2])) as u8].add(t)),
                None => None,
            }
        } else {
            None
        }
    } else if s[0] == PLUS {
        match pct_decode(s.skip(1)) {
            Some(t) => Some(seq![SPACE].add(t)),
            None => None,
        }
    } else {
        match pct_decode(s.skip(1)) {
            Some(t) => Some(seq![s[0]].add(t)),
            None => None,
        }
    }
}

/// The key and value of one non-empty segment: the part before the first
/// `=` and the part after it (empty if there is no `=`), each
/// percent-decoded. `None` if either part is undecodable.
pub open spec fn segment_fields(seg: Seq<u8>) -> Option<(Seq<u8>, Seq<u8>)> {
    let e = find_byte(seg, EQUALS_SIGN);
    let key_raw = seg.take(e as int);
    let val_raw = if e == seg.len() {
        Seq::<u8>::empty()
    } else {
        seg.skip(e as int + 1)
    };
    match (pct_decode(key_raw), pct_decode(val_raw)) {
        (Some(k), Some(v)) => Some((k, v)),
        _ => None,
    }
}

pub open spec fn key_n() -> Seq<u8> {
    seq![LETTER_N]
}

pub open spec fn key_m() -> Seq<u8> {
    seq![LETTER_M]
}

/// Merges one decoded key/value pair into the fields gathered from the
/// rest of the body. A second occurrence of `n` or `m` is rejected; other
/// keys are ignored.
pub open spec fn add_field(k: Seq<u8>, v: Seq<u8>, rest: (Option<Seq<u8>>, Option<Seq<u8>>)) -> Option<
    (Option<Seq<u8>>, Option<Seq<u8>>),
> {
    if k == key_n() {
        if rest.0 is Some {
            None
        } else {
            Some((Some(v), rest.1))
        }
    } else if k == key_m() {
        if rest.1 is Some {
            None
        } else {
            Some((rest.0, Some(v)))
        }
    } else {
        Some(rest)
    }
}

/// The raw values of the fields `n` and `m` in a form-encoded body, split
/// on `&`; empty segments are skipped. `None` if any segment is
/// undecodable or `n` or `m` is repeated.
pub open spec fn scan_fields(s: Seq<u8>) -> Option<(Option<Seq<u8>>, Option<Seq<u8>>)>
    decreases s.len(),
    via scan_fields_decreases
{
    let j = find_byte(s, AMPERSAND);
    let seg = s.take(j as int);
    let rest = if j == s.len() {
        Some((None::<Seq<u8>>, None::<Seq<u8>>))
    } else {
        scan_fields(s.skip(j as int + 1))
    };
    if seg.len() == 0 {
        rest
    } else {
        match (segment_fields(seg), rest) {
            (Some(kv), Some(st)) => add_field(kv.0, kv.1, st),
            _ => None,
        }
    }
}

#[via_fn]
proof fn scan_fields_decreases(s: Seq<u8>) {
    lemma_find_byte(s, AMPERSAND);
}

pub open spec fn is_digit(b: u8) -> bool {
    48 <= b && b <= 57
}

/// The number denoted by a sequence of decimal digit bytes.
pub open spec fn dec_value(s: Seq<u8>) -> nat
    decreases s.len(),
{
    if s.len() == 0 {
        0
    } else {
        dec_value(s.drop_last()) * 10 + (if is_digit(s.last()) {
            (s.last() - 48) as nat
        } else {
            0
        })
    }
}

/// `s` is a decimal numeral denoting a value that fits in 64 bits: at
/// least one byte, all digits, value at most `u64::MAX`.
pub open spec fn is_dec_u64(s: Seq<u8>) -> bool {
    &&& s.len() > 0
    &&& forall|i: int| 0 <= i < s.len() ==> is_digit(#[trigger] s[i])
    &&& dec_value(s) <= u64::MAX
}

/// The value of a body: the parsed pair `(n, m)`, or the reason it is
/// rejected. The zero check is not made here; see `request_outcome`.
pub open spec fn parse_form(s: Seq<u8>) -> Result<(u64, u64), ValidationError> {
    match scan_fields(s) {
        None => Err(ValidationError::Malformed),
        Some(st) => match st {
            (Some(nv), Some(mv)) => if is_dec_u64(nv) && is_dec_u64(mv) {
                Ok((dec_value(nv) as u64, dec_value(mv) as u64))
            } else {
                Err(ValidationError::NonNumeric)
            },
            _ => Err(ValidationError::MissingField),
        },
    }
}

/// The outcome of validating a body end to end: the operands handed to the
/// kernel, or the error shown to the client.
pub open spec fn request_outcome(s: Seq<u8>) -> Result<(u64, u64), ValidationError> {
    match parse_form(s) {
        Ok(p) => if p.0 == 0 || p.1 == 0 {
            Err(ValidationError::ZeroValue)
        } else {
            Ok(p)
        },
        Err(e) => Err(e),
    }
}

/// The first index in `[lo, hi)` where `s` holds `c`, or `hi`.
fn find_byte_range(s: &[u8], lo: usize, hi: usize, c: u8) -> (r: usize)
    requires
        lo <= hi <= s@.len(),
    ensures
        lo <= r <= hi,
        r - lo == find_byte(s@.subrange(lo as int, hi as int), c),
        r < hi ==> s@[r as int] == c,
        forall|i: int| lo <= i < r ==> s@[i] != c,
{
    let mut i = lo;
    while i < hi
        invariant
            lo <= i <= hi <= s@.len(),
            forall|j: int| lo <= j < i ==> s@[j] != c,
        decreases hi - i,
    {
        if s[i] == c {
            proof {
                let sub = s@.subrange(lo as int, hi as int);
                lemma_find_byte_unique(sub, c, (i - lo) as nat);
            }
            return i;
        }
        i += 1;
    }
    proof {
        let sub = s@.subrange(lo as int, hi as int);
        lemma_find_byte_unique(sub, c, (hi - lo) as nat);
    }
    hi
}

fn is_hex_digit_exec(b: u8) -> (r: bool)
    ensures
        r == is_hex_digit(b),
{
    (48 <= b && b <= 57) || (65 <= b && b <= 70) || (97 <= b && b <= 102)
}

fn hex_val_exec(b: u8) -> (r: u8)
    requires
        is_hex_digit(b),
    ensures
        r as nat == hex_val(b),
        r < 16,
{
    if 48 <= b && b <= 57 {
        b - 48
    } else if 65 <= b && b <= 70 {
        b - 55
    } else {
        b - 87
    }
}

/// Percent-decodes `s[lo..hi]`, as `pct_decode` specifies.
fn pct_decode_range(s: &[u8], lo: usize, hi: usize) -> (r: Option<Vec<u8>>)
    requires
        lo <= hi <= s@.len(),
    ensures
        match r {
            Some(v) => pct_decode(s@.subrange(lo as int, hi as int)) == Some(v@),
            None => pct_decode(s@.subrange(lo as int, hi as int)) is None,
        },
    decreases hi - lo,
{
    let ghost sub = s@.subrange(lo as int, hi as int);
    if lo == hi {
        proof {
            assert(sub =~= Seq::<u8>::empty());
        }
        Some(Vec::new())
    } else {
        let b = s[lo];
        proof {
            assert(sub[0] == b);
        }
        if b == PERCENT {
            if hi - lo >= 3 {
                let h1 = s[lo + 1];
                let h2 = s[lo + 2];
                proof {
                    assert(sub[1] == h1);
                    assert(sub[2] == h2);
                }
                if is_hex_digit_exec(h1) && is_hex_digit_exec(h2) {
                    let byte = 16 * hex_val_exec(h1) + hex_val_exec(h2);
                    proof {
                        assert(sub.skip(3) =~= s@.subrange(lo + 3, hi as int));
                    }
                    match pct_decode_range(s, lo + 3, hi) {
                        Some(mut v) => {
                            let ghost tail = v@;
                            v.insert(0, byte);
                            proof {
                                assert(v@ =~= seq![byte].add(tail));
                            }
                            Some(v)
                        },
                        None => None,
                    }
                } else {
                    None
                }
            } else {
                None
            }
        } else {
            proof {
                assert(sub.skip(1) =~= s@.subrange(lo + 1, hi as int));
            }
            match pct_decode_range(s, lo + 1, hi) {
                Some(mut v) => {
                    let ghost tail = v@;
                    let decoded = if b == PLUS {
                        SPACE
                    } else {
                        b
                    };
                    v.insert(0, decoded);
                    proof {
                        assert(v@ =~= seq![decoded].add(tail));
                    }
                    Some(v)
                },
                None => None,
            }
        }
    }
}

/// The executable counterpart of one `Option<Seq<u8>>` field.
pub open spec fn opt_matches(sv: Option<Seq<u8>>, v: Option<Vec<u8>>) -> bool {
    match (sv, v) {
        (Option::None, Option::None) => true,
        (Some(x), Some(y)) => x == y@,
        _ => false,
    }
}

pub open spec fn fields_match(
    spec_r: Option<(Option<Seq<u8>>, Option<Seq<u8>>)>,
    r: Option<(Option<Vec<u8>>, Option<Vec<u8>>)>,
) -> bool {
    match (spec_r, r) {
        (Option::None, Option::None) => true,
        (Some(st), Some(t)) => opt_matches(st.0, t.0) && opt_matches(st.1, t.1),
        _ => false,
    }
}

/// Gathers the raw `n` and `m` values from `s[lo..]`, as `scan_fields`
/// specifies.
fn scan_fields_from(s: &[u8], lo: usize) -> (r: Option<(Option<Vec<u8>>, Option<Vec<u8>>)>)
    requires
        lo <= s@.len(),
    ensures
        fields_match(scan_fields(s@.skip(lo as int)), r),
    decreases s@.len() - lo,
{
    let ghost sub = s@.skip(lo as int);
    let hi = s.len();
    proof {
        assert(sub =~= s@.subrange(lo as int, hi as int));
    }
    let j = find_byte_range(s, lo, hi, AMPERSAND);
    let rest: Option<(Option<Vec<u8>>, Option<Vec<u8>>)> = if j == hi {
        Some((None, None))
    } else {
        proof {
            assert(sub.skip(j - lo + 1) =~= s@.skip(j + 1));
        }
        scan_fields_from(s, j + 1)
    };
    if j == lo {
        proof {
            assert(sub.take(0) =~= Seq::<u8>::empty());
        }
        rest
    } else {
        let ghost seg = sub.take(j - lo);
        proof {
            assert(seg =~= s@.subrange(lo as int, j as int));
        }
        let e = find_byte_range(s, lo, j, EQUALS_SIGN);
        proof {
            assert(find_byte(seg, EQUALS_SIGN) == e - lo);
            assert(seg.take(e - lo) =~= s@.subrange(lo as int, e as int));
        }
        let key = pct_decode_range(s, lo, e);
        let val: Option<Vec<u8>> = if e == j {
            proof {
                assert(pct_decode(Seq::<u8>::empty()) == Some(Seq::<u8>::empty()));
            }
            Some(Vec::new())
        } else {
            proof {
                assert(seg.skip(e - lo + 1) =~= s@.subrange(e + 1, j as int));
            }
            pct_decode_range(s, e + 1, j)
        };
        match (key, val, rest) {
            (Some(k), Some(v), Some(st)) => {
                let (sn, sm) = st;
                if k.len() == 1 && k[0] == LETTER_N {
                    proof {
                        assert(k@ =~= key_n());
                    }
                    match sn {
                        Some(_) => None,
                        None => Some((Some(v), sm)),
                    }
                } else if k.len() == 1 && k[0] == LETTER_M {
                    proof {
                        assert(k@ =~= key_m());
                    }
                    match sm {
                        Some(_) => None,
                        None => Some((sn, Some(v))),
                    }
                } else {
                    proof {
                        if k@ == key_n() {
                            assert(k@.len() == 1 && k@[0] == LETTER_N);
                        }
                        if k@ == key_m() {
                            assert(k@.len() == 1 && k@[0] == LETTER_M);
                        }
                    }
                    Some((sn, sm))
                }
            },
            _ => None,
        }
    }
}

/// `dec_value` can only grow as a numeral is extended to the right.
proof fn lemma_dec_value_monotone(s: Seq<u8>, i: int)
    requires
        0 <= i <= s.len(),
    ensures
        dec_value(s.take(i)) <= dec_value(s),
    decreases s.len(),
{
    if i == s.len() {
        assert(s.take(i) =~= s);
    } else {
        lemma_dec_value_monotone(s.drop_last(), i);
        assert(s.drop_last().take(i) =~= s.take(i));
    }
}

/// Parses a decimal numeral, as `is_dec_u64` and `dec_value` specify:
/// `Some` exactly when the bytes are a numeral fitting in 64 bits.
pub fn parse_u64_digits(v: &Vec<u8>) -> (r: Option<u64>)
    ensures
        match r {
            Some(x) => is_dec_u64(v@) && x as nat == dec_value(v@),
            None => !is_dec_u64(v@),
        },
{
    if v.len() == 0 {
        return None;
    }
    let mut acc: u64 = 0;
    let mut i: usize = 0;
    while i < v.len()
        invariant
            0 <= i <= v@.len(),
            forall|j: int| 0 <= j < i ==> is_digit(#[trigger] v@[j]),
            acc as nat == dec_value(v@.take(i as int)),
        decreases v@.len() - i,
    {
        let b = v[i];
        if !(48 <= b && b <= 57) {
            return None;
        }
        let d = (b - 48) as u64;
        proof {
            assert(v@.take(i + 1).drop_last() =~= v@.take(i as int));
            assert(v@.take(i + 1).last() == v@[i as int]);
        }
        if acc > (u64::MAX - d) / 10 {
            proof {
                vstd::arithmetic::div_mod::lemma_fundamental_div_mod(
                    (u64::MAX - d) as int,
                    10,
                );
                assert(dec_value(v@.take(i + 1)) > u64::MAX);
                lemma_dec_value_monotone(v@, i + 1);
            }
            return None;
        }
        proof {
            vstd::arithmetic::div_mod::lemma_fundamental_div_mod((u64::MAX - d) as int, 10);
        }
        acc = acc * 10 + d;
        i += 1;
    }
    proof {
        assert(v@.take(v@.len() as int) =~= v@);
    }
    Some(acc)
}

/// Parses and validates a request body, as `parse_form` specifies.
pub fn parse_gcd_request(body: &[u8]) -> (r: Result<GcdParameters, ValidationError>)
    ensures
        match parse_form(body@) {
            Ok(p) => r matches Ok(q) && q.n == p.0 && q.m == p.1,
            Err(e) => r matches Err(e2) && e2 == e,
        },
{
    proof {
        assert(body@.skip(0) =~= body@);
    }
    match scan_fields_from(body, 0) {
        None => Err(ValidationError::Malformed),
        Some(st) => match st {
            (Some(nv), Some(mv)) => match (parse_u64_digits(&nv), parse_u64_digits(&mv)) {
                (Some(n), Some(m)) => Ok(GcdParameters { n, m }),
                _ => Err(ValidationError::NonNumeric),
            },
            _ => Err(ValidationError::MissingField),
        },
    }
}

} // verus!
